//! The spelling of rule names in emitted Workshop text.
use vstd::prelude::*;
use crate::text::{ascii_lower, lower};

verus! {

/// Whether a character has the Unicode `White_Space` property, which is
/// what `char::is_whitespace` tells: the controls U+0009 to U+000D, the
/// space, U+0085, U+00A0, U+1680, U+2000 to U+200A, U+2028, U+2029,
/// U+202F, U+205F and U+3000.
pub open spec fn is_white_space(c: char) -> bool {
    ||| ('\u{9}' <= c && c <= '\u{d}')
    ||| c == ' '
    ||| c == '\u{85}'
    ||| c == '\u{a0}'
    ||| c == '\u{1680}'
    ||| ('\u{2000}' <= c && c <= '\u{200a}')
    ||| c == '\u{2028}'
    ||| c == '\u{2029}'
    ||| c == '\u{202f}'
    ||| c == '\u{205f}'
    ||| c == '\u{3000}'
}

/// What `char::is_alphanumeric` returns for a character: whether it is
/// alphabetic or numeric in Unicode's sense.
pub uninterp spec fn is_alphanumeric(c: char) -> bool;

/// Whether a character has the Unicode `White_Space` property.
pub(crate) fn char_is_whitespace(c: char) -> (r: bool)
    ensures
        r == is_white_space(c),
{
    ('\u{9}' <= c && c <= '\u{d}') || c == ' ' || c == '\u{85}' || c == '\u{a0}' || c == '\u{1680}'
        || ('\u{2000}' <= c && c <= '\u{200a}') || c == '\u{2028}' || c == '\u{2029}' || c == '\u{202f}'
        || c == '\u{205f}' || c == '\u{3000}'
}

/// `char::is_alphanumeric`, which tells whether a character is alphabetic
/// or numeric; the contract names that result and says no more.
#[verifier::external_body]
fn char_is_alphanumeric(c: char) -> (r: bool)
    ensures
        r == is_alphanumeric(c),
{
    c.is_alphanumeric()
}

/// The first position from `p` on that is past the end of `text` or holds
/// no whitespace.
pub open spec fn skip_white_space(text: Seq<char>, p: int) -> int
    decreases text.len() - p,
{
    if 0 <= p < text.len() && is_white_space(text[p]) {
        skip_white_space(text, p + 1)
    } else {
        p
    }
}

/// Matching `letters` from `p` on, each after optional whitespace: the
/// position after the last letter and where the split after `i` goes.
pub open spec fn match_letters(text: Seq<char>, p: int, letters: Seq<char>, split: Option<int>) -> Option<
    (int, Option<int>),
>
    decreases letters.len(),
{
    if letters.len() == 0 {
        Some((p, split))
    } else {
        let q = skip_white_space(text, p);
        if !(0 <= q < text.len()) || ascii_lower(text[q]) != ascii_lower(letters[0]) {
            None
        } else {
            let split2 = if letters[0] == 'i' {
                Some(skip_white_space(text, q + 1))
            } else {
                split
            };
            match_letters(text, q + 1, letters.skip(1), split2)
        }
    }
}

/// Whether position `p` ends a word: past the end, or not alphanumeric and
/// not `_`.
pub open spec fn at_word_boundary(text: Seq<char>, p: int) -> bool {
    !(0 <= p < text.len()) || !(is_alphanumeric(text[p]) || text[p] == '_')
}

/// Where the soft hyphen goes when `r i g g e r`, with whitespace allowed
/// between the letters and ending at a word boundary, starts at `start`:
/// just after the `i` and the whitespace that follows it.
pub open spec fn filtered_split(text: Seq<char>, start: int) -> Option<int> {
    match match_letters(text, start + 1, seq!['i', 'g', 'g', 'e', 'r'], None) {
        Some((p, split)) => if at_word_boundary(text, p) {
            split
        } else {
            None
        },
        None => None,
    }
}

pub proof fn lemma_skip_white_space(text: Seq<char>, p: int)
    requires
        0 <= p,
    ensures
        p <= skip_white_space(text, p),
        p <= text.len() ==> skip_white_space(text, p) <= text.len(),
    decreases text.len() - p,
{
    if 0 <= p < text.len() && is_white_space(text[p]) {
        lemma_skip_white_space(text, p + 1);
    }
}

pub(crate) fn skip_ws(text: &[char], p: usize) -> (r: usize)
    requires
        p <= text@.len(),
    ensures
        r == skip_white_space(text@, p as int),
        p <= r <= text@.len(),
{
    proof {
        lemma_skip_white_space(text@, p as int);
    }
    let mut q = p;
    while q < text.len() && char_is_whitespace(text[q])
        invariant
            p <= q <= text@.len(),
            skip_white_space(text@, p as int) == skip_white_space(text@, q as int),
        decreases text@.len() - q,
    {
        q = q + 1;
    }
    q
}

/// Where the soft hyphen goes when the filtered word `rigger`, with
/// whitespace allowed between its letters and ending at a word boundary,
/// starts at `start`.
pub fn filtered_word_split(text: &[char], start: usize) -> (r: Option<usize>)
    requires
        start < usize::MAX,
    ensures
        match filtered_split(text@, start as int) {
            Some(s) => r == Some(s as usize) && start < s <= text@.len(),
            None => r is None,
        },
{
    if start >= text.len() {
        proof {
            lemma_skip_white_space(text@, start + 1);
        }
        return None;
    }
    let letters: [char; 5] = ['i', 'g', 'g', 'e', 'r'];
    let ghost all = seq!['i', 'g', 'g', 'e', 'r'];
    assert(letters@ == all);
    assert(all[0] == 'i' && all[1] == 'g' && all[2] == 'g' && all[3] == 'e' && all[4] == 'r');
    let n = text.len();
    let mut position = start + 1;
    let mut split: Option<usize> = None;
    let mut k: usize = 0;
    assert(all.skip(0) =~= all);
    while k < 5
        invariant
            letters@ == all,
            all == seq!['i', 'g', 'g', 'e', 'r'],
            all[0] == 'i' && all[1] == 'g' && all[2] == 'g' && all[3] == 'e' && all[4] == 'r',
            n == text@.len(),
            k <= 5,
            start < position <= text@.len(),
            k > 0 ==> split is Some && start < split->0 <= text@.len(),
            match_letters(text@, start + 1, all, None) == match_letters(
                text@,
                position as int,
                all.skip(k as int),
                match split {
                    Some(s) => Some(s as int),
                    None => None::<int>,
                },
            ),
        decreases 5 - k,
    {
        let letter = letters[k];
        let q = skip_ws(text, position);
        assert(all.skip(k as int)[0] == letter);
        assert(all.skip(k as int).skip(1) =~= all.skip(k + 1));
        if q >= text.len() || lower(text[q]) != lower(letter) {
            proof {
                let sv = match split {
                    Some(v) => Some(v as int),
                    None => None::<int>,
                };
                assert(match_letters(text@, position as int, all.skip(k as int), sv) is None);
            }
            return None;
        }
        if letter == 'i' {
            let after = skip_ws(text, q + 1);
            split = Some(after);
        }
        position = q + 1;
        k = k + 1;
    }
    assert(all.skip(5) =~= Seq::<char>::empty());
    let boundary = if position < text.len() {
        let c = text[position];
        !(char_is_alphanumeric(c) || c == '_')
    } else {
        true
    };
    if boundary {
        split
    } else {
        None
    }
}

/// Characters that rule names lose: zero-width and direction marks.
pub open spec fn is_invisible(c: char) -> bool {
    c == '\u{200B}' || c == '\u{200E}' || c == '\u{200F}' || c == '\u{FEFF}' || c == '\u{061C}'
}

/// The characters of a name without its invisible ones.
pub open spec fn visible(s: Seq<char>) -> Seq<char>
    decreases s.len(),
{
    if s.len() == 0 {
        s
    } else if is_invisible(s.last()) {
        visible(s.drop_last())
    } else {
        visible(s.drop_last()).push(s.last())
    }
}

/// Whether `a` and `b` are equal up to ASCII case.
pub open spec fn same_ignoring_case(a: Seq<char>, b: Seq<char>) -> bool {
    a.len() == b.len() && forall|i: int| 0 <= i < a.len() ==> ascii_lower(#[trigger] a[i]) == ascii_lower(b[i])
}

/// At most the first `n` characters of `s`.
pub open spec fn first_chars(s: Seq<char>, n: int) -> Seq<char> {
    if s.len() >= n {
        s.take(n)
    } else {
        s
    }
}

/// Whether the `a` at `index` starts the word `admin`, in any case.
pub open spec fn starts_admin(s: Seq<char>, index: int) -> bool {
    (s[index] == 'a' || s[index] == 'A') && same_ignoring_case(
        first_chars(s.skip(index + 1), 4),
        seq!['d', 'm', 'i', 'n'],
    )
}

/// The escaped name from position `index` of the visible characters `s`
/// on: `admin` gets a soft hyphen after its `a`, and the filtered word
/// `rigger` one at its split.
pub open spec fn escaped_from(s: Seq<char>, index: int) -> Seq<char>
    decreases s.len() - index,
{
    if index < 0 || index >= s.len() {
        Seq::empty()
    } else {
        let c = s[index];
        let head = if starts_admin(s, index) {
            seq![c, '\u{00AD}']
        } else {
            seq![c]
        };
        match if c == 'r' || c == 'R' {
            filtered_split(s, index)
        } else {
            None
        } {
            Some(split) => if index < split <= s.len() {
                head + s.subrange(index + 1, split) + seq!['\u{00AD}'] + escaped_from(s, split)
            } else {
                head + escaped_from(s, index + 1)
            },
            None => head + escaped_from(s, index + 1),
        }
    }
}

/// The name as the Workshop rule title spells it: without invisible
/// formatting characters, with a soft hyphen after the `a` of `admin` and
/// inside the filtered word `rigger`.
pub open spec fn escaped_rule_name(name: Seq<char>) -> Seq<char> {
    escaped_from(visible(name), 0)
}

fn is_invisible_char(c: char) -> (r: bool)
    ensures
        r == is_invisible(c),
{
    c == '\u{200B}' || c == '\u{200E}' || c == '\u{200F}' || c == '\u{FEFF}' || c == '\u{061C}'
}

fn starts_admin_at(s: &Vec<char>, index: usize) -> (r: bool)
    requires
        index < s@.len(),
    ensures
        r == starts_admin(s@, index as int),
{
    let c = s[index];
    if !(c == 'a' || c == 'A') {
        return false;
    }
    let n = s.len();
    if n - (index + 1) < 4 {
        assert(first_chars(s@.skip(index + 1), 4).len() < 4);
        return false;
    }
    let word: [char; 4] = ['d', 'm', 'i', 'n'];
    let ghost w = seq!['d', 'm', 'i', 'n'];
    assert(word@ == w);
    let ghost part = s@.skip(index + 1).take(4);
    let mut k: usize = 0;
    while k < 4
        invariant
            word@ == w,
            w == seq!['d', 'm', 'i', 'n'],
            n == s@.len(),
            index + 5 <= n,
            part == s@.skip(index + 1).take(4),
            first_chars(s@.skip(index + 1), 4) == part,
            k <= 4,
            forall|j: int| 0 <= j < k ==> ascii_lower(#[trigger] part[j]) == ascii_lower(w[j]),
        decreases 4 - k,
    {
        assert(part[k as int] == s@[index + 1 + k]);
        if lower(s[index + 1 + k]) != lower(word[k]) {
            assert(ascii_lower(part[k as int]) != ascii_lower(w[k as int]));
            return false;
        }
        k = k + 1;
    }
    true
}

/// The name as the Workshop rule title spells it: invisible formatting
/// characters dropped, and a soft hyphen after the `a` of `admin` and at the
/// split of the filtered word `rigger`.
pub fn escape_rule_name(name: &str) -> (r: String)
    ensures
        r@ == escaped_rule_name(name@),
{
    let chars = crate::strings::chars_of(name);
    let mut stripped: Vec<char> = Vec::new();
    let mut i: usize = 0;
    while i < chars.len()
        invariant
            i <= chars@.len(),
            stripped@ == visible(chars@.take(i as int)),
        decreases chars@.len() - i,
    {
        assert(chars@.take(i + 1).drop_last() =~= chars@.take(i as int));
        if !is_invisible_char(chars[i]) {
            stripped.push(chars[i]);
        }
        i = i + 1;
    }
    assert(chars@.take(chars@.len() as int) =~= chars@);
    let mut escaped: Vec<char> = Vec::new();
    let mut index: usize = 0;
    let ghost s = stripped@;
    while index < stripped.len()
        invariant
            s == stripped@,
            index <= s.len(),
            escaped_from(s, 0) == escaped@ + escaped_from(s, index as int),
        decreases s.len() - index,
    {
        let ghost before = escaped@;
        let c = stripped[index];
        escaped.push(c);
        if starts_admin_at(&stripped, index) {
            escaped.push('\u{00AD}');
        }
        let mut split: Option<usize> = None;
        if c == 'r' || c == 'R' {
            split = filtered_word_split(stripped.as_slice(), index);
        }
        match split {
            Some(to) => {
                let mut j = index + 1;
                let ghost mid = escaped@;
                while j < to
                    invariant
                        s == stripped@,
                        index < to <= s.len(),
                        index + 1 <= j <= to,
                        escaped@ == mid + s.subrange(index + 1, j as int),
                    decreases to - j,
                {
                    escaped.push(stripped[j]);
                    j = j + 1;
                    assert(escaped@ =~= mid + s.subrange(index + 1, j as int));
                }
                escaped.push('\u{00AD}');
                assert(escaped@ =~= before + (if starts_admin(s, index as int) {
                    seq![c, '\u{00AD}']
                } else {
                    seq![c]
                }) + s.subrange(index + 1, to as int) + seq!['\u{00AD}']);
                assert(before + ((if starts_admin(s, index as int) {
                    seq![c, '\u{00AD}']
                } else {
                    seq![c]
                }) + s.subrange(index + 1, to as int) + seq!['\u{00AD}'] + escaped_from(s, to as int))
                    =~= escaped@ + escaped_from(s, to as int));
                index = to;
            },
            None => {
                assert(before + ((if starts_admin(s, index as int) {
                    seq![c, '\u{00AD}']
                } else {
                    seq![c]
                }) + escaped_from(s, index + 1)) =~= escaped@ + escaped_from(s, index + 1));
                index = index + 1;
            },
        }
    }
    assert(escaped@ + escaped_from(s, s.len() as int) =~= escaped@);
    crate::strings::string_of(&escaped)
}

/// The text without its soft hyphens.
pub open spec fn without_soft_hyphens(s: Seq<char>) -> Seq<char>
    decreases s.len(),
{
    if s.len() == 0 {
        s
    } else if s.last() == '\u{00AD}' {
        without_soft_hyphens(s.drop_last())
    } else {
        without_soft_hyphens(s.drop_last()).push(s.last())
    }
}

proof fn lemma_without_soft_hyphens_concat(a: Seq<char>, b: Seq<char>)
    ensures
        without_soft_hyphens(a + b) == without_soft_hyphens(a) + without_soft_hyphens(b),
    decreases b.len(),
{
    if b.len() == 0 {
        assert(a + b =~= a);
        assert(without_soft_hyphens(a) + without_soft_hyphens(b) =~= without_soft_hyphens(a));
    } else {
        lemma_without_soft_hyphens_concat(a, b.drop_last());
        assert((a + b).drop_last() =~= a + b.drop_last());
        assert((a + b).last() == b.last());
        if b.last() == '\u{00AD}' {
        } else {
            assert(without_soft_hyphens(a) + without_soft_hyphens(b.drop_last()).push(b.last()) =~= (
            without_soft_hyphens(a) + without_soft_hyphens(b.drop_last())).push(b.last()));
        }
    }
}

/// A position from `p` up to where whitespace skipping stops holds whitespace.
proof fn lemma_skipped_is_white(text: Seq<char>, p: int, j: int)
    requires
        0 <= p <= j < skip_white_space(text, p),
    ensures
        j < text.len() && is_white_space(text[j]),
    decreases text.len() - p,
{
    if 0 <= p < text.len() && is_white_space(text[p]) {
        if j > p {
            lemma_skipped_is_white(text, p + 1, j);
        }
    }
}

/// Every position from `p` up to where whitespace skipping stops holds whitespace.
proof fn lemma_skipped_are_white(text: Seq<char>, p: int)
    requires
        0 <= p,
    ensures
        p <= skip_white_space(text, p),
        forall|j: int| p <= j < skip_white_space(text, p) ==> 0 <= j < text.len() && is_white_space(#[trigger] text[j]),
{
    lemma_skip_white_space(text, p);
    assert forall|j: int| p <= j < skip_white_space(text, p) implies 0 <= j < text.len() && is_white_space(
        #[trigger] text[j],
    ) by {
        lemma_skipped_is_white(text, p, j);
    }
}

/// Letters other than `i` leave the split where it was.
proof fn lemma_match_keeps_split(text: Seq<char>, p: int, letters: Seq<char>, split: Option<int>)
    requires
        forall|k: int| 0 <= k < letters.len() ==> letters[k] != 'i',
    ensures
        match_letters(text, p, letters, split) matches Some((_, sp)) ==> sp == split,
    decreases letters.len(),
{
    if letters.len() > 0 {
        let rest = letters.skip(1);
        assert forall|k: int| 0 <= k < rest.len() implies rest[k] != 'i' by {
            assert(rest[k] == letters[k + 1]);
        }
        lemma_match_keeps_split(text, skip_white_space(text, p) + 1, rest, split);
    }
}

/// What the split of the filtered word skips holds only whitespace and the
/// word's `i`.
proof fn lemma_split_holds_no_a(text: Seq<char>, start: int, sp: int)
    requires
        0 <= start,
        filtered_split(text, start) == Some(sp),
    ensures
        start < sp,
        forall|j: int| start < j < sp ==> 0 <= j < text.len() && (#[trigger] text[j] != 'a' && text[j] != 'A'),
{
    let word = seq!['i', 'g', 'g', 'e', 'r'];
    let q = skip_white_space(text, start + 1);
    lemma_skipped_are_white(text, start + 1);
    let m = match_letters(text, start + 1, word, None);
    assert(m is Some);
    assert(0 <= q < text.len() && ascii_lower(text[q]) == ascii_lower(word[0]));
    let rest = word.skip(1);
    assert(rest =~= seq!['g', 'g', 'e', 'r']);
    let after = skip_white_space(text, q + 1);
    lemma_skipped_are_white(text, q + 1);
    assert(m == match_letters(text, q + 1, rest, Some(after)));
    lemma_match_keeps_split(text, q + 1, rest, Some(after));
    assert(sp == after);
    assert(text[q] == 'i' || text[q] == 'I');
    assert forall|j: int| start < j < sp implies 0 <= j < text.len() && (#[trigger] text[j] != 'a' && text[j]
        != 'A') by {
        if j < q {
            assert(is_white_space(text[j]));
        } else if j > q {
            assert(is_white_space(text[j]));
        }
    }
}

/// The escape reaches every `a` of the name: what it writes before is the
/// name up to there, give or take soft hyphens.
proof fn lemma_escape_reaches(s: Seq<char>, k: int, i: int, p: Seq<char>)
    requires
        0 <= k <= i < s.len(),
        s[i] == 'a' || s[i] == 'A',
        escaped_from(s, 0) == p + escaped_from(s, k),
        without_soft_hyphens(p) == without_soft_hyphens(s.take(k)),
    ensures
        exists|q: Seq<char>|
            escaped_from(s, 0) == q + escaped_from(s, i) && without_soft_hyphens(q) == without_soft_hyphens(
                s.take(i),
            ),
    decreases i - k,
{
    if k == i {
        return;
    }
    let c = s[k];
    let head = if starts_admin(s, k) {
        seq![c, '\u{00AD}']
    } else {
        seq![c]
    };
    assert(without_soft_hyphens(head) == without_soft_hyphens(seq![c])) by {
        if starts_admin(s, k) {
            assert(head.drop_last() =~= seq![c]);
        }
    }
    let split = if c == 'r' || c == 'R' {
        filtered_split(s, k)
    } else {
        None
    };
    match split {
        Some(sp) => {
            if k < sp <= s.len() {
                lemma_split_holds_no_a(s, k, sp);
                assert(sp <= i);
                let mid = s.subrange(k + 1, sp);
                let p2 = p + head + mid + seq!['\u{00AD}'];
                assert(escaped_from(s, k) == head + mid + seq!['\u{00AD}'] + escaped_from(s, sp));
                assert(escaped_from(s, 0) =~= p2 + escaped_from(s, sp));
                assert(s.take(sp) =~= s.take(k) + seq![c] + mid);
                lemma_without_soft_hyphens_concat(p + head + mid, seq!['\u{00AD}']);
                lemma_without_soft_hyphens_concat(p + head, mid);
                lemma_without_soft_hyphens_concat(p, head);
                lemma_without_soft_hyphens_concat(s.take(k) + seq![c], mid);
                lemma_without_soft_hyphens_concat(s.take(k), seq![c]);
                assert(without_soft_hyphens(seq!['\u{00AD}']) =~= Seq::<char>::empty()) by {
                    let one = seq!['\u{00AD}'];
                    assert(one.drop_last() =~= Seq::<char>::empty());
                    assert(one.last() == '\u{00AD}');
                    assert(without_soft_hyphens(Seq::<char>::empty()) == Seq::<char>::empty());
                    assert(without_soft_hyphens(one) == without_soft_hyphens(one.drop_last()));
                }
                assert(without_soft_hyphens(p2) =~= without_soft_hyphens(s.take(sp)));
                lemma_escape_reaches(s, sp, i, p2);
            } else {
                let p2 = p + head;
                assert(escaped_from(s, 0) =~= p2 + escaped_from(s, k + 1));
                assert(s.take(k + 1) =~= s.take(k) + seq![c]);
                lemma_without_soft_hyphens_concat(p, head);
                lemma_without_soft_hyphens_concat(s.take(k), seq![c]);
                lemma_escape_reaches(s, k + 1, i, p2);
            }
        },
        None => {
            let p2 = p + head;
            assert(escaped_from(s, 0) =~= p2 + escaped_from(s, k + 1));
            assert(s.take(k + 1) =~= s.take(k) + seq![c]);
            lemma_without_soft_hyphens_concat(p, head);
            lemma_without_soft_hyphens_concat(s.take(k), seq![c]);
            lemma_escape_reaches(s, k + 1, i, p2);
        },
    }
}

/// Soft-hyphen law: wherever the visible name holds an `a` or `A` followed
/// by `dmin` in any case, the escaped name has a soft hyphen right after
/// that `a`, at the place of that `a`: what comes before it is the visible
/// name up to the `a`, soft hyphens aside. This holds at every position,
/// not only at the start of the name.
pub proof fn lemma_admin_gets_soft_hyphen(name: Seq<char>, i: int)
    requires
        0 <= i,
        i + 5 <= visible(name).len(),
        visible(name)[i] == 'a' || visible(name)[i] == 'A',
        ascii_lower(visible(name)[i + 1]) == 'd',
        ascii_lower(visible(name)[i + 2]) == 'm',
        ascii_lower(visible(name)[i + 3]) == 'i',
        ascii_lower(visible(name)[i + 4]) == 'n',
    ensures
        exists|p: Seq<char>, q: Seq<char>|
            escaped_rule_name(name) == p + seq![visible(name)[i], '\u{00AD}'] + q && without_soft_hyphens(p)
                == without_soft_hyphens(visible(name).take(i)),
{
    let s = visible(name);
    assert(s.take(0) =~= Seq::<char>::empty());
    assert(escaped_from(s, 0) == Seq::<char>::empty() + escaped_from(s, 0));
    lemma_escape_reaches(s, 0, i, Seq::<char>::empty());
    let p = choose|q: Seq<char>|
        escaped_from(s, 0) == q + escaped_from(s, i) && without_soft_hyphens(q) == without_soft_hyphens(s.take(i));
    let part = first_chars(s.skip(i + 1), 4);
    assert(part =~= s.subrange(i + 1, i + 5));
    let w = seq!['d', 'm', 'i', 'n'];
    assert forall|j: int| 0 <= j < part.len() implies ascii_lower(#[trigger] part[j]) == ascii_lower(w[j]) by {
        assert(part[j] == s[i + 1 + j]);
    }
    assert(starts_admin(s, i));
    let rest = escaped_from(s, i + 1);
    assert(escaped_from(s, i) == seq![s[i], '\u{00AD}'] + rest);
    assert(escaped_rule_name(name) =~= p + seq![s[i], '\u{00AD}'] + rest);
}

} // verus!
