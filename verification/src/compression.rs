//! The text of a compressed array literal.
//!
//! Each compressed value arrives as its decimal digits, least significant
//! first. Trailing zeros are dropped (a value of only zeros keeps one), the
//! digits are read in pairs, and each pair, or a last single digit, is
//! written as the character of the compression alphabet at the number the
//! pair spells with its second digit as tens. A vector's components are
//! grouped first: x and z padded with zeros to a fixed width, then y. The
//! encoded values are joined by `0`.
use vstd::prelude::*;
use crate::strings::{push_chars, string_of};
use crate::text::{compression_alphabet_chars, compression_alphabet_spec, lemma_compression_alphabet};

verus! {

/// Whether every character is a decimal digit.
pub open spec fn all_digits(s: Seq<char>) -> bool {
    forall|i: int| 0 <= i < s.len() ==> '0' <= #[trigger] s[i] && s[i] <= '9'
}

/// The value of a decimal digit.
pub open spec fn digit_value(c: char) -> int {
    c as int - 48
}

/// The digits without their trailing zeros.
pub open spec fn without_trailing_zeros(s: Seq<char>) -> Seq<char>
    decreases s.len(),
{
    if s.len() > 0 && s.last() == '0' {
        without_trailing_zeros(s.drop_last())
    } else {
        s
    }
}

/// The digits without trailing zeros; a value of only zeros keeps one.
pub open spec fn trimmed_digits(s: Seq<char>) -> Seq<char> {
    if without_trailing_zeros(s).len() == 0 {
        seq!['0']
    } else {
        without_trailing_zeros(s)
    }
}

/// The digits, two at a time from the first, as characters of the
/// compression alphabet.
pub open spec fn encoded_pairs(s: Seq<char>) -> Seq<char>
    decreases s.len(),
{
    if s.len() == 0 {
        Seq::empty()
    } else if s.len() == 1 {
        seq![compression_alphabet_spec()[digit_value(s[0])]]
    } else {
        seq![compression_alphabet_spec()[digit_value(s[1]) * 10 + digit_value(s[0])]] + encoded_pairs(s.skip(2))
    }
}

/// The digits padded with zeros to `width`.
pub open spec fn zero_padded(s: Seq<char>, width: nat) -> Seq<char> {
    if s.len() < width {
        s + Seq::new((width - s.len()) as nat, |i: int| '0')
    } else {
        s
    }
}

/// The digits of a vector: x and z padded to `width`, then y.
pub open spec fn vector_digits(x: Seq<char>, y: Seq<char>, z: Seq<char>, width: nat) -> Seq<char> {
    zero_padded(trimmed_digits(x), width) + zero_padded(trimmed_digits(z), width) + trimmed_digits(y)
}

/// Parts joined by `0`.
pub open spec fn joined_by_zero(parts: Seq<Seq<char>>) -> Seq<char>
    decreases parts.len(),
{
    if parts.len() == 0 {
        Seq::empty()
    } else if parts.len() == 1 {
        parts[0]
    } else {
        joined_by_zero(parts.drop_last()) + seq!['0'] + parts.last()
    }
}

/// The encoded parts of a compressed array: one per number, or one per
/// three components of a vector.
pub open spec fn compressed_parts(values: Seq<Seq<char>>, vectors: bool, width: nat) -> Seq<Seq<char>> {
    if vectors {
        Seq::new(
            values.len() / 3,
            |k: int| encoded_pairs(vector_digits(values[3 * k], values[3 * k + 1], values[3 * k + 2], width)),
        )
    } else {
        Seq::new(values.len(), |k: int| encoded_pairs(trimmed_digits(values[k])))
    }
}

/// The text of a compressed array whose values have these digits.
pub open spec fn compressed_text(values: Seq<Seq<char>>, vectors: bool, width: nat) -> Seq<char> {
    joined_by_zero(compressed_parts(values, vectors, width))
}

/// The value of a decimal digit character.
fn digit_of(c: char) -> (d: usize)
    requires
        '0' <= c <= '9',
    ensures
        d == digit_value(c),
        d < 10,
{
    if c == '0' { 0 }
    else if c == '1' { 1 }
    else if c == '2' { 2 }
    else if c == '3' { 3 }
    else if c == '4' { 4 }
    else if c == '5' { 5 }
    else if c == '6' { 6 }
    else if c == '7' { 7 }
    else if c == '8' { 8 }
    else { 9 }
}

proof fn lemma_without_trailing_zeros(s: Seq<char>, n: int)
    requires
        0 <= n <= s.len(),
        forall|i: int| n <= i < s.len() ==> s[i] == '0',
        n == 0 || s[n - 1] != '0',
    ensures
        without_trailing_zeros(s) == s.take(n),
    decreases s.len(),
{
    if s.len() > n {
        assert(s.drop_last().len() == s.len() - 1);
        lemma_without_trailing_zeros(s.drop_last(), n);
        assert(s.drop_last().take(n) =~= s.take(n));
    } else {
        assert(s.take(n) =~= s);
    }
}

/// The digits without trailing zeros; a value of only zeros keeps one.
fn trim_digits(s: &Vec<char>) -> (r: Vec<char>)
    requires
        all_digits(s@),
    ensures
        r@ == trimmed_digits(s@),
        all_digits(r@),
{
    let mut n: usize = s.len();
    while n > 0 && s[n - 1] == '0'
        invariant
            n <= s@.len(),
            forall|i: int| n <= i < s@.len() ==> s@[i] == '0',
        decreases n,
    {
        n = n - 1;
    }
    proof {
        lemma_without_trailing_zeros(s@, n as int);
    }
    let mut r: Vec<char> = Vec::new();
    if n == 0 {
        r.push('0');
        assert(r@ =~= seq!['0']);
        return r;
    }
    let mut i: usize = 0;
    while i < n
        invariant
            i <= n <= s@.len(),
            r@ == s@.take(i as int),
        decreases n - i,
    {
        r.push(s[i]);
        i = i + 1;
        assert(r@ =~= s@.take(i as int));
    }
    r
}

/// Append the digits read in pairs as characters of the alphabet.
fn push_encoded(out: &mut Vec<char>, s: &Vec<char>, alphabet: &Vec<char>)
    requires
        all_digits(s@),
        alphabet@ == compression_alphabet_spec(),
        alphabet@.len() == 100,
    ensures
        final(out)@ == old(out)@ + encoded_pairs(s@),
{
    let ghost start = out@;
    let mut i: usize = 0;
    assert(s@.skip(0) =~= s@);
    while i < s.len()
        invariant
            i <= s@.len(),
            all_digits(s@),
            alphabet@ == compression_alphabet_spec(),
            alphabet@.len() == 100,
            start + encoded_pairs(s@) == out@ + encoded_pairs(s@.skip(i as int)),
        decreases s@.len() - i,
    {
        let ghost rest = s@.skip(i as int);
        if i + 1 < s.len() {
            let low = digit_of(s[i]);
            let high = digit_of(s[i + 1]);
            let c = alphabet[high * 10 + low];
            assert(rest[0] == s@[i as int] && rest[1] == s@[i + 1]);
            assert(rest.skip(2) =~= s@.skip(i + 2));
            out.push(c);
            i = i + 2;
        } else {
            let low = digit_of(s[i]);
            let c = alphabet[low];
            assert(rest[0] == s@[i as int]);
            assert(rest.len() == 1);
            out.push(c);
            i = i + 1;
        }
    }
    assert(s@.skip(i as int) =~= Seq::<char>::empty());
}

/// The digits padded with zeros to `width`.
fn pad_digits(s: &mut Vec<char>, width: usize)
    ensures
        final(s)@ == zero_padded(old(s)@, width as nat),
{
    let ghost start = s@;
    if s.len() < width {
        let mut k: usize = s.len();
        while k < width
            invariant
                start.len() <= k <= width,
                s@ == start + Seq::new((k - start.len()) as nat, |i: int| '0'),
            decreases width - k,
        {
            s.push('0');
            k = k + 1;
            assert(s@ =~= start + Seq::new((k - start.len()) as nat, |i: int| '0'));
        }
    }
}

/// The text of a compressed array from the digits of its values, least
/// significant first: for vectors, three values per vector, x and z padded
/// to `width`.
pub fn compressed_array_text(values: &Vec<Vec<char>>, vectors: bool, width: usize) -> (r: String)
    requires
        forall|k: int| 0 <= k < values@.len() ==> all_digits(#[trigger] values@[k]@),
        vectors ==> values@.len() % 3 == 0,
    ensures
        r@ == compressed_text(values@.map_values(|v: Vec<char>| v@), vectors, width as nat),
{
    let ghost vs = values@.map_values(|v: Vec<char>| v@);
    let ghost parts = compressed_parts(vs, vectors, width as nat);
    let alphabet = compression_alphabet_chars();
    let count: usize = if vectors { values.len() / 3 } else { values.len() };
    assert(parts.len() == count);
    let mut out: Vec<char> = Vec::new();
    let mut k: usize = 0;
    while k < count
        invariant
            k <= count,
            count == parts.len(),
            parts == compressed_parts(vs, vectors, width as nat),
            vs == values@.map_values(|v: Vec<char>| v@),
            vectors ==> count == values@.len() / 3,
            !vectors ==> count == values@.len(),
            forall|j: int| 0 <= j < values@.len() ==> all_digits(#[trigger] values@[j]@),
            alphabet@ == compression_alphabet_spec(),
            alphabet@.len() == 100,
            out@ == joined_by_zero(parts.take(k as int)),
        decreases count - k,
    {
        let ghost before = out@;
        if k > 0 {
            out.push('0');
        }
        let ghost sep = out@;
        if vectors {
            let n = values.len();
            assert(3 * k + 2 < values@.len()) by (nonlinear_arith)
                requires
                    k < count,
                    count == values@.len() / 3,
            ;
            let mut x = trim_digits(&values[3 * k]);
            let mut z = trim_digits(&values[3 * k + 2]);
            let y = trim_digits(&values[3 * k + 1]);
            pad_digits(&mut x, width);
            pad_digits(&mut z, width);
            let mut grouped = x;
            push_chars(&mut grouped, &z);
            push_chars(&mut grouped, &y);
            assert(grouped@ == vector_digits(vs[3 * k as int], vs[3 * k + 1], vs[3 * k + 2], width as nat));
            assert(all_digits(grouped@));
            push_encoded(&mut out, &grouped, &alphabet);
        } else {
            let d = trim_digits(&values[k]);
            assert(d@ == trimmed_digits(vs[k as int]));
            push_encoded(&mut out, &d, &alphabet);
        }
        assert(out@ == sep + parts[k as int]);
        assert(parts.take(k + 1).drop_last() =~= parts.take(k as int));
        if k == 0 {
            assert(out@ =~= parts.take(1)[0]);
        } else {
            assert(out@ =~= joined_by_zero(parts.take(k as int)) + seq!['0'] + parts.take(k + 1).last());
        }
        k = k + 1;
    }
    assert(parts.take(count as int) =~= parts);
    string_of(&out)
}

/// Drop the lowest digits that are zero in every value, as long as every
/// value has one, and say how many were dropped. This is how a decoded
/// array finds its lowest significant decimal place.
pub fn strip_common_low_zeros(values: &mut Vec<Vec<char>>) -> (removed: usize)
    requires
        old(values)@.len() > 0,
    ensures
        final(values)@.len() == old(values)@.len(),
        forall|k: int| 0 <= k < old(values)@.len() ==> removed <= (#[trigger] old(values)@[k])@.len(),
        forall|k: int, j: int| 0 <= k < old(values)@.len() && 0 <= j < removed ==> #[trigger] old(values)@[k]@[j] == '0',
        exists|k: int| 0 <= k < old(values)@.len() && (removed == (#[trigger] old(values)@[k])@.len() || old(values)@[k]@[removed as int] != '0'),
        forall|k: int| 0 <= k < old(values)@.len() ==> (#[trigger] final(values)@[k])@ == old(values)@[k]@.skip(removed as int),
{
    let ghost start = values@;
    let n = values.len();
    let mut removed: usize = 0;
    loop
        invariant
            n == start.len() > 0,
            values@ == start,
            forall|k: int| 0 <= k < n ==> removed <= (#[trigger] start[k])@.len(),
            forall|k: int, j: int| 0 <= k < n && 0 <= j < removed ==> #[trigger] start[k]@[j] == '0',
        ensures
            forall|k: int| 0 <= k < n ==> removed <= (#[trigger] start[k])@.len(),
            forall|k: int, j: int| 0 <= k < n && 0 <= j < removed ==> #[trigger] start[k]@[j] == '0',
            exists|k: int| 0 <= k < n && (removed == (#[trigger] start[k])@.len() || start[k]@[removed as int] != '0'),
        decreases start[0]@.len() - removed,
    {
        let mut all_zero = true;
        let mut k: usize = 0;
        while k < n
            invariant
                n == start.len() > 0,
                values@ == start,
                k <= n,
                all_zero ==> forall|i: int| 0 <= i < k ==> removed < (#[trigger] start[i])@.len() && start[i]@[removed as int] == '0',
                !all_zero ==> exists|i: int| 0 <= i < n && (removed == (#[trigger] start[i])@.len() || start[i]@[removed as int] != '0'),
                forall|i: int| 0 <= i < n ==> removed <= (#[trigger] start[i])@.len(),
            decreases n - k,
        {
            let v = &values[k];
            if removed >= v.len() || v[removed] != '0' {
                assert(start[k as int] == *v);
                all_zero = false;
            }
            k = k + 1;
        }
        if !all_zero {
            break;
        }
        let first_len = values[0].len();
        assert(removed < first_len);
        removed = removed + 1;
    }
    let mut k: usize = 0;
    while k < n
        invariant
            n == start.len(),
            values@.len() == n,
            k <= n,
            forall|i: int| 0 <= i < n ==> removed <= (#[trigger] start[i])@.len(),
            forall|i: int| 0 <= i < k ==> (#[trigger] values@[i])@ == start[i]@.skip(removed as int),
            forall|i: int| k <= i < n ==> #[trigger] values@[i] == start[i],
        decreases n - k,
    {
        let mut rest: Vec<char> = Vec::new();
        let mut j: usize = removed;
        while j < values[k].len()
            invariant
                k < n,
                n == start.len(),
                values@.len() == n,
                values@[k as int] == start[k as int],
                removed <= j <= start[k as int]@.len(),
                rest@ == start[k as int]@.subrange(removed as int, j as int),
            decreases values@[k as int]@.len() - j,
        {
            rest.push(values[k][j]);
            j = j + 1;
            assert(rest@ =~= start[k as int]@.subrange(removed as int, j as int));
        }
        assert(rest@ =~= start[k as int]@.skip(removed as int));
        values.set(k, rest);
        k = k + 1;
    }
    removed
}

/// Trimming and padding keep digits digits.
proof fn lemma_trimmed_digits(s: Seq<char>, width: nat)
    requires
        all_digits(s),
    ensures
        all_digits(trimmed_digits(s)),
        all_digits(zero_padded(trimmed_digits(s), width)),
    decreases s.len(),
{
    lemma_without_trailing_zeros_prefix(s);
    let t = trimmed_digits(s);
    assert(all_digits(t));
    if t.len() < width {
        let p = zero_padded(t, width);
        assert forall|i: int| 0 <= i < p.len() implies '0' <= #[trigger] p[i] && p[i] <= '9' by {
            if i >= t.len() {
                assert(p[i] == '0');
            }
        }
    }
}

/// Dropping trailing zeros keeps a prefix.
proof fn lemma_without_trailing_zeros_prefix(s: Seq<char>)
    ensures
        without_trailing_zeros(s).len() <= s.len(),
        forall|i: int| 0 <= i < without_trailing_zeros(s).len() ==> #[trigger] without_trailing_zeros(s)[i] == s[i],
    decreases s.len(),
{
    if s.len() > 0 && s.last() == '0' {
        lemma_without_trailing_zeros_prefix(s.drop_last());
    }
}

/// No character of encoded digits is `0`.
proof fn lemma_encoded_pairs_hold_no_zero(s: Seq<char>)
    requires
        all_digits(s),
    ensures
        forall|j: int| 0 <= j < encoded_pairs(s).len() ==> #[trigger] encoded_pairs(s)[j] != '0',
    decreases s.len(),
{
    lemma_compression_alphabet();
    if s.len() == 1 {
        assert(compression_alphabet_spec()[digit_value(s[0])] != '0');
    } else if s.len() >= 2 {
        let rest = s.skip(2);
        assert(all_digits(rest)) by {
            assert forall|i: int| 0 <= i < rest.len() implies '0' <= #[trigger] rest[i] && rest[i] <= '9' by {
                assert(rest[i] == s[i + 2]);
            }
        }
        lemma_encoded_pairs_hold_no_zero(rest);
        let n = digit_value(s[1]) * 10 + digit_value(s[0]);
        assert(0 <= n < 100);
        assert(compression_alphabet_spec()[n] != '0');
        let e = encoded_pairs(s);
        assert forall|j: int| 0 <= j < e.len() implies #[trigger] e[j] != '0' by {
            if j > 0 {
                assert(e[j] == encoded_pairs(rest)[j - 1]);
            }
        }
    }
}

/// Each value of a compressed array is encoded without `0`, so the text
/// splits back at its zeros into exactly the encoded values, in order.
pub proof fn lemma_compressed_parts_hold_no_zero(values: Seq<Seq<char>>, vectors: bool, width: nat)
    requires
        forall|k: int| 0 <= k < values.len() ==> all_digits(#[trigger] values[k]),
        vectors ==> values.len() % 3 == 0,
    ensures
        forall|k: int, j: int|
            0 <= k < compressed_parts(values, vectors, width).len() && 0 <= j < compressed_parts(
                values,
                vectors,
                width,
            )[k].len() ==> #[trigger] compressed_parts(values, vectors, width)[k][j] != '0',
{
    let parts = compressed_parts(values, vectors, width);
    assert forall|k: int, j: int| 0 <= k < parts.len() && 0 <= j < parts[k].len() implies #[trigger] parts[k][j]
        != '0' by {
        if vectors {
            assert(3 * k + 2 < values.len()) by (nonlinear_arith)
                requires
                    0 <= k < values.len() / 3,
            ;
            let x = values[3 * k];
            let y = values[3 * k + 1];
            let z = values[3 * k + 2];
            lemma_trimmed_digits(x, width);
            lemma_trimmed_digits(y, width);
            lemma_trimmed_digits(z, width);
            let g = vector_digits(x, y, z, width);
            let a = zero_padded(trimmed_digits(x), width);
            let b = zero_padded(trimmed_digits(z), width);
            let c = trimmed_digits(y);
            assert(all_digits(g)) by {
                assert forall|i: int| 0 <= i < g.len() implies '0' <= #[trigger] g[i] && g[i] <= '9' by {
                    if i < a.len() {
                        assert(g[i] == a[i]);
                    } else if i < a.len() + b.len() {
                        assert(g[i] == b[i - a.len()]);
                    } else {
                        assert(g[i] == c[i - a.len() - b.len()]);
                    }
                }
            }
            lemma_encoded_pairs_hold_no_zero(g);
        } else {
            lemma_trimmed_digits(values[k], width);
            lemma_encoded_pairs_hold_no_zero(trimmed_digits(values[k]));
        }
    }
}

} // verus!
