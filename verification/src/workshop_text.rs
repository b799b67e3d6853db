//! Normalization of emitted Workshop text.
use vstd::prelude::*;
use crate::strings::{chars_of, string_of};

verus! {

/// `\r\n` and a lone `\r` both become `\n`.
pub open spec fn unify_newlines(s: Seq<char>) -> Seq<char>
    decreases s.len(),
{
    if s.len() == 0 {
        s
    } else if s[0] == '\r' {
        if s.len() >= 2 && s[1] == '\n' {
            seq!['\n'] + unify_newlines(s.skip(2))
        } else {
            seq!['\n'] + unify_newlines(s.skip(1))
        }
    } else {
        seq![s[0]] + unify_newlines(s.skip(1))
    }
}

/// The pieces of `s` between its `\n`s: one more than there are `\n`s.
pub open spec fn split_lines(s: Seq<char>) -> Seq<Seq<char>>
    decreases s.len(),
{
    if s.len() == 0 {
        seq![Seq::<char>::empty()]
    } else {
        let ls = split_lines(s.drop_last());
        if s.last() == '\n' {
            ls.push(Seq::<char>::empty())
        } else {
            ls.update(ls.len() - 1, ls.last().push(s.last()))
        }
    }
}

/// A line without its trailing spaces and tabs.
pub open spec fn rtrim(l: Seq<char>) -> Seq<char>
    decreases l.len(),
{
    if l.len() > 0 && (l.last() == ' ' || l.last() == '\t') {
        rtrim(l.drop_last())
    } else {
        l
    }
}

/// Lines without their trailing empty lines.
pub open spec fn drop_blank_tail(ls: Seq<Seq<char>>) -> Seq<Seq<char>>
    decreases ls.len(),
{
    if ls.len() > 0 && ls.last().len() == 0 {
        drop_blank_tail(ls.drop_last())
    } else {
        ls
    }
}

/// Each line followed by `\n`.
pub open spec fn terminated(ls: Seq<Seq<char>>) -> Seq<char>
    decreases ls.len(),
{
    if ls.len() == 0 {
        Seq::empty()
    } else {
        terminated(ls.drop_last()) + ls.last() + seq!['\n']
    }
}

/// Workshop text with `\n` line ends, no trailing blanks on a line and no
/// trailing empty lines; each remaining line ends with `\n`.
pub open spec fn normalized_workshop(text: Seq<char>) -> Seq<char> {
    if text.len() == 0 {
        Seq::empty()
    } else {
        terminated(
            drop_blank_tail(split_lines(unify_newlines(text)).map_values(|l: Seq<char>| rtrim(l))),
        )
    }
}

/// The views of a list of character vectors.
pub open spec fn line_views(ls: Seq<Vec<char>>) -> Seq<Seq<char>> {
    ls.map_values(|l: Vec<char>| l@)
}

fn unify_newline_chars(s: &Vec<char>) -> (r: Vec<char>)
    ensures
        r@ == unify_newlines(s@),
{
    let mut out: Vec<char> = Vec::new();
    let mut i: usize = 0;
    assert(s@.skip(0) =~= s@);
    while i < s.len()
        invariant
            i <= s@.len(),
            unify_newlines(s@) == out@ + unify_newlines(s@.skip(i as int)),
        decreases s@.len() - i,
    {
        let ghost before = out@;
        let ghost rest = s@.skip(i as int);
        if s[i] == '\r' {
            out.push('\n');
            if i + 1 < s.len() && s[i + 1] == '\n' {
                assert(rest.skip(2) =~= s@.skip(i + 2));
                assert(before + (seq!['\n'] + unify_newlines(rest.skip(2))) =~= out@
                    + unify_newlines(s@.skip(i + 2)));
                i = i + 2;
            } else {
                assert(rest.skip(1) =~= s@.skip(i + 1));
                assert(before + (seq!['\n'] + unify_newlines(rest.skip(1))) =~= out@
                    + unify_newlines(s@.skip(i + 1)));
                i = i + 1;
            }
        } else {
            out.push(s[i]);
            assert(rest.skip(1) =~= s@.skip(i + 1));
            assert(before + (seq![s@[i as int]] + unify_newlines(rest.skip(1))) =~= out@
                + unify_newlines(s@.skip(i + 1)));
            i = i + 1;
        }
    }
    assert(s@.skip(s@.len() as int) =~= Seq::<char>::empty());
    assert(out@ + Seq::<char>::empty() =~= out@);
    out
}

fn split_line_chars(s: &Vec<char>) -> (r: Vec<Vec<char>>)
    ensures
        line_views(r@) == split_lines(s@),
{
    let mut done: Vec<Vec<char>> = Vec::new();
    let mut current: Vec<char> = Vec::new();
    let mut i: usize = 0;
    assert(s@.take(0) =~= Seq::<char>::empty());
    assert(line_views(done@).push(current@) =~= split_lines(s@.take(0)));
    while i < s.len()
        invariant
            i <= s@.len(),
            line_views(done@).push(current@) == split_lines(s@.take(i as int)),
        decreases s@.len() - i,
    {
        let ghost prev = s@.take(i as int);
        assert(s@.take(i + 1).drop_last() =~= prev);
        assert(s@.take(i + 1).last() == s@[i as int]);
        if s[i] == '\n' {
            let finished = current;
            done.push(finished);
            current = Vec::new();
            assert(line_views(done@) =~= line_views(done@.drop_last()).push(finished@));
        } else {
            let ghost old_current = current@;
            current.push(s[i]);
            assert(line_views(done@).push(current@) =~= line_views(done@).push(old_current).update(
                line_views(done@).len() as int,
                old_current.push(s@[i as int]),
            ));
        }
        i = i + 1;
    }
    assert(s@.take(s@.len() as int) =~= s@);
    let ghost body = line_views(done@);
    done.push(current);
    assert(line_views(done@) =~= body.push(current@));
    done
}

fn rtrim_chars(l: &Vec<char>) -> (r: Vec<char>)
    ensures
        r@ == rtrim(l@),
{
    let mut k: usize = l.len();
    assert(l@.take(k as int) =~= l@);
    while k > 0 && (l[k - 1] == ' ' || l[k - 1] == '\t')
        invariant
            k <= l@.len(),
            rtrim(l@) == rtrim(l@.take(k as int)),
        decreases k,
    {
        assert(l@.take(k as int).drop_last() =~= l@.take(k - 1));
        k = k - 1;
    }
    let mut r: Vec<char> = Vec::new();
    let mut j: usize = 0;
    while j < k
        invariant
            j <= k <= l@.len(),
            r@ == l@.take(j as int),
        decreases k - j,
    {
        r.push(l[j]);
        j = j + 1;
        assert(r@ =~= l@.take(j as int));
    }
    r
}

/// Workshop text with `\r\n` and `\r` line ends turned into `\n`, the
/// trailing spaces and tabs of each line and the trailing empty lines
/// removed, and a final `\n` after the last line.
pub fn normalize_workshop(text: &str) -> (r: String)
    ensures
        r@ == normalized_workshop(text@),
{
    let s = chars_of(text);
    if s.len() == 0 {
        return String::new();
    }
    let u = unify_newline_chars(&s);
    let raw = split_line_chars(&u);
    let ghost all = split_lines(u@).map_values(|l: Seq<char>| rtrim(l));
    let mut lines: Vec<Vec<char>> = Vec::new();
    let mut i: usize = 0;
    while i < raw.len()
        invariant
            i <= raw@.len(),
            line_views(raw@) == split_lines(u@),
            all == split_lines(u@).map_values(|l: Seq<char>| rtrim(l)),
            line_views(lines@) == all.take(i as int),
        decreases raw@.len() - i,
    {
        let t = rtrim_chars(&raw[i]);
        let ghost before = line_views(lines@);
        lines.push(t);
        assert(line_views(raw@)[i as int] == raw@[i as int]@);
        assert(line_views(lines@) =~= before.push(t@));
        assert(all.take(i + 1) =~= all.take(i as int).push(all[i as int]));
        i = i + 1;
    }
    assert(all.take(raw@.len() as int) =~= all);
    while lines.len() > 0 && lines[lines.len() - 1].len() == 0
        invariant
            drop_blank_tail(all) == drop_blank_tail(line_views(lines@)),
        decreases lines@.len(),
    {
        let ghost before = line_views(lines@);
        lines.pop();
        assert(line_views(lines@) =~= before.drop_last());
    }
    assert(drop_blank_tail(line_views(lines@)) == line_views(lines@));
    let ghost kept = line_views(lines@);
    let mut out: Vec<char> = Vec::new();
    let mut j: usize = 0;
    while j < lines.len()
        invariant
            j <= lines@.len(),
            kept == line_views(lines@),
            out@ == terminated(kept.take(j as int)),
        decreases lines@.len() - j,
    {
        let ghost before = out@;
        let mut k: usize = 0;
        while k < lines[j].len()
            invariant
                j < lines@.len(),
                k <= lines@[j as int]@.len(),
                out@ == before + lines@[j as int]@.take(k as int),
            decreases lines@[j as int]@.len() - k,
        {
            out.push(lines[j][k]);
            k = k + 1;
            assert(out@ =~= before + lines@[j as int]@.take(k as int));
        }
        out.push('\n');
        assert(lines@[j as int]@.take(k as int) =~= lines@[j as int]@);
        assert(kept.take(j + 1).drop_last() =~= kept.take(j as int));
        assert(kept.take(j + 1).last() == lines@[j as int]@);
        j = j + 1;
    }
    assert(kept.take(kept.len() as int) =~= kept);
    string_of(&out)
}

/// Whether `c` occurs nowhere in `s`.
pub open spec fn lacks(s: Seq<char>, c: char) -> bool {
    forall|i: int| 0 <= i < s.len() ==> s[i] != c
}

/// Unifying line ends leaves no `\r`, and leaves text without `\r` as it is.
proof fn lemma_unify(s: Seq<char>)
    ensures
        lacks(unify_newlines(s), '\r'),
        lacks(s, '\r') ==> unify_newlines(s) == s,
    decreases s.len(),
{
    if s.len() > 0 {
        if s[0] == '\r' {
            if s.len() >= 2 && s[1] == '\n' {
                lemma_unify(s.skip(2));
            } else {
                lemma_unify(s.skip(1));
            }
        } else {
            lemma_unify(s.skip(1));
            let u = unify_newlines(s.skip(1));
            assert forall|i: int| 0 <= i < (seq![s[0]] + u).len() implies (seq![s[0]] + u)[i]
                != '\r' by {
                if i > 0 {
                    assert((seq![s[0]] + u)[i] == u[i - 1]);
                }
            }
            if lacks(s, '\r') {
                assert forall|i: int| 0 <= i < s.skip(1).len() implies s.skip(1)[i] != '\r' by {
                    assert(s.skip(1)[i] == s[i + 1]);
                }
                assert(seq![s[0]] + s.skip(1) =~= s);
            }
        }
    }
}

/// The pieces between line ends hold no `\n`, and no `\r` where the text
/// holds none.
proof fn lemma_split_pieces(s: Seq<char>)
    ensures
        split_lines(s).len() >= 1,
        forall|k: int| 0 <= k < split_lines(s).len() ==> lacks(#[trigger] split_lines(s)[k], '\n'),
        lacks(s, '\r') ==> forall|k: int|
            0 <= k < split_lines(s).len() ==> lacks(#[trigger] split_lines(s)[k], '\r'),
    decreases s.len(),
{
    if s.len() > 0 {
        lemma_split_pieces(s.drop_last());
        let ls = split_lines(s.drop_last());
        if lacks(s, '\r') {
            assert forall|i: int| 0 <= i < s.drop_last().len() implies s.drop_last()[i] != '\r' by {
                assert(s.drop_last()[i] == s[i]);
            }
        }
        if s.last() != '\n' {
            let n = ls.update(ls.len() - 1, ls.last().push(s.last()));
            assert forall|k: int| 0 <= k < n.len() implies lacks(#[trigger] n[k], '\n') by {
                if k == ls.len() - 1 {
                    assert(lacks(ls[k], '\n'));
                    assert forall|i: int| 0 <= i < n[k].len() implies n[k][i] != '\n' by {
                        if i < ls[k].len() {
                            assert(n[k][i] == ls[k][i]);
                        }
                    }
                }
            }
            if lacks(s, '\r') {
                assert forall|k: int| 0 <= k < n.len() implies lacks(#[trigger] n[k], '\r') by {
                    if k == ls.len() - 1 {
                        assert(lacks(ls[k], '\r'));
                        assert forall|i: int| 0 <= i < n[k].len() implies n[k][i] != '\r' by {
                            if i < ls[k].len() {
                                assert(n[k][i] == ls[k][i]);
                            } else {
                                assert(n[k][i] == s.last());
                                assert(s[s.len() - 1] != '\r');
                            }
                        }
                    }
                }
            }
        } else {
            let n = ls.push(Seq::<char>::empty());
            assert forall|k: int| 0 <= k < n.len() implies lacks(#[trigger] n[k], '\n') by {
                if k < ls.len() {
                    assert(n[k] == ls[k]);
                }
            }
            if lacks(s, '\r') {
                assert forall|k: int| 0 <= k < n.len() implies lacks(#[trigger] n[k], '\r') by {
                    if k < ls.len() {
                        assert(n[k] == ls[k]);
                    }
                }
            }
        }
    }
}

/// Cutting trailing blanks gives a prefix, and cutting them again changes
/// nothing.
proof fn lemma_rtrim(l: Seq<char>)
    ensures
        rtrim(rtrim(l)) == rtrim(l),
        rtrim(l).len() <= l.len(),
        rtrim(l) == l.take(rtrim(l).len() as int),
    decreases l.len(),
{
    if l.len() > 0 && (l.last() == ' ' || l.last() == '\t') {
        lemma_rtrim(l.drop_last());
        assert(l.drop_last().take(rtrim(l).len() as int) =~= l.take(rtrim(l).len() as int));
    } else {
        assert(l.take(l.len() as int) =~= l);
    }
}

/// Splitting text followed by a piece without line ends adds the piece to
/// the last line.
proof fn lemma_split_append(s: Seq<char>, l: Seq<char>)
    requires
        lacks(l, '\n'),
    ensures
        split_lines(s + l) == split_lines(s).update(
            split_lines(s).len() - 1,
            split_lines(s).last() + l,
        ),
    decreases l.len(),
{
    lemma_split_pieces(s);
    if l.len() == 0 {
        assert(s + l =~= s);
        assert(split_lines(s).last() + l =~= split_lines(s).last());
        assert(split_lines(s).update(split_lines(s).len() - 1, split_lines(s).last()) =~= split_lines(s));
    } else {
        let l0 = l.drop_last();
        assert forall|i: int| 0 <= i < l0.len() implies l0[i] != '\n' by {
            assert(l0[i] == l[i]);
        }
        lemma_split_append(s, l0);
        assert((s + l).drop_last() =~= s + l0);
        assert((s + l).last() == l.last());
        assert(l[l.len() - 1] != '\n');
        let a = split_lines(s);
        let b = split_lines(s + l0);
        assert(b.last().push(l.last()) =~= a.last() + l);
        assert(b.update(b.len() - 1, b.last().push(l.last())) =~= a.update(a.len() - 1, a.last() + l));
    }
}

/// Splitting terminated lines gives the lines back, with an empty piece
/// after the last line end.
proof fn lemma_split_terminated(ls: Seq<Seq<char>>)
    requires
        forall|k: int| 0 <= k < ls.len() ==> lacks(#[trigger] ls[k], '\n'),
    ensures
        split_lines(terminated(ls)) == ls.push(Seq::<char>::empty()),
    decreases ls.len(),
{
    if ls.len() == 0 {
        assert(split_lines(Seq::<char>::empty()) =~= seq![Seq::<char>::empty()]);
        assert(ls.push(Seq::<char>::empty()) =~= seq![Seq::<char>::empty()]);
    } else {
        let init = ls.drop_last();
        assert forall|k: int| 0 <= k < init.len() implies lacks(#[trigger] init[k], '\n') by {
            assert(init[k] == ls[k]);
        }
        lemma_split_terminated(init);
        let t = terminated(init);
        assert(lacks(ls.last(), '\n'));
        lemma_split_append(t, ls.last());
        let with_line = t + ls.last();
        assert(terminated(ls) == with_line + seq!['\n']);
        assert((with_line + seq!['\n']).drop_last() =~= with_line);
        assert((with_line + seq!['\n']).last() == '\n');
        let a = init.push(Seq::<char>::empty());
        assert(a.update(a.len() - 1, a.last() + ls.last()) =~= ls);
        assert(Seq::<char>::empty() + ls.last() =~= ls.last());
    }
}

/// Dropping blank lines at the end gives a prefix whose last line, if any,
/// is not blank.
proof fn lemma_drop_blank_tail(ls: Seq<Seq<char>>)
    ensures
        drop_blank_tail(ls).len() <= ls.len(),
        forall|k: int| 0 <= k < drop_blank_tail(ls).len() ==> #[trigger] drop_blank_tail(ls)[k] == ls[k],
        drop_blank_tail(ls).len() == 0 || drop_blank_tail(ls).last().len() > 0,
    decreases ls.len(),
{
    if ls.len() > 0 && ls.last().len() == 0 {
        lemma_drop_blank_tail(ls.drop_last());
        assert forall|k: int| 0 <= k < drop_blank_tail(ls).len() implies #[trigger] drop_blank_tail(ls)[k]
            == ls[k] by {
            assert(ls.drop_last()[k] == ls[k]);
        }
    }
}

/// Normalizing normalized text changes nothing.
pub proof fn lemma_normalize_idempotent(text: Seq<char>)
    ensures
        normalized_workshop(normalized_workshop(text)) == normalized_workshop(text),
{
    if text.len() > 0 {
        let u = unify_newlines(text);
        lemma_unify(text);
        lemma_split_pieces(u);
        let pieces = split_lines(u);
        let trimmed = pieces.map_values(|l: Seq<char>| rtrim(l));
        let ls = drop_blank_tail(trimmed);
        lemma_drop_blank_tail(trimmed);
        assert forall|k: int| 0 <= k < ls.len() implies lacks(#[trigger] ls[k], '\n') && lacks(
            ls[k],
            '\r',
        ) && rtrim(ls[k]) == ls[k] by {
            assert(ls[k] == trimmed[k]);
            lemma_rtrim(pieces[k]);
            assert(lacks(pieces[k], '\n'));
            assert(lacks(pieces[k], '\r'));
            let r = rtrim(pieces[k]);
            assert forall|i: int| 0 <= i < r.len() implies r[i] != '\n' && r[i] != '\r' by {
                assert(r[i] == pieces[k].take(r.len() as int)[i]);
                assert(r[i] == pieces[k][i]);
            }
        }
        let t = terminated(ls);
        assert(t == normalized_workshop(text));
        if t.len() > 0 {
            lemma_terminated_lacks_r(ls);
            lemma_unify(t);
            assert(unify_newlines(t) == t);
            lemma_split_terminated(ls);
            let p2 = ls.push(Seq::<char>::empty());
            let tr2 = p2.map_values(|l: Seq<char>| rtrim(l));
            assert(tr2 =~= p2);
            assert(tr2.drop_last() =~= ls);
            assert(drop_blank_tail(tr2) == drop_blank_tail(ls));
            assert(drop_blank_tail(ls) == ls) by {
                if ls.len() > 0 {
                    assert(ls.last().len() > 0);
                }
            }
        }
    }
}

/// Terminated lines without `\r` hold no `\r`.
proof fn lemma_terminated_lacks_r(ls: Seq<Seq<char>>)
    requires
        forall|k: int| 0 <= k < ls.len() ==> lacks(#[trigger] ls[k], '\r'),
    ensures
        lacks(terminated(ls), '\r'),
    decreases ls.len(),
{
    if ls.len() > 0 {
        let init = ls.drop_last();
        assert forall|k: int| 0 <= k < init.len() implies lacks(#[trigger] init[k], '\r') by {
            assert(init[k] == ls[k]);
        }
        lemma_terminated_lacks_r(init);
        let a = terminated(init);
        let b = ls.last();
        assert(lacks(b, '\r'));
        let all = a + b + seq!['\n'];
        assert forall|i: int| 0 <= i < all.len() implies all[i] != '\r' by {
            if i < a.len() {
                assert(all[i] == a[i]);
            } else if i < a.len() + b.len() {
                assert(all[i] == b[i - a.len()]);
            } else {
                assert(all[i] == '\n');
            }
        }
    }
}


/// Whether no line of the text ends in a space or a tab.
pub open spec fn no_trailing_blanks(t: Seq<char>) -> bool {
    forall|i: int| 0 < i < t.len() && #[trigger] t[i] == '\n' ==> t[i - 1] != ' ' && t[i - 1] != '\t'
}

/// Terminated lines that end in no blank and hold no line end keep that:
/// no line of the text ends in a blank, and the text ends in `\n`.
proof fn lemma_terminated_blanks(ls: Seq<Seq<char>>)
    requires
        forall|k: int| 0 <= k < ls.len() ==> lacks(#[trigger] ls[k], '\n') && rtrim(ls[k]) == ls[k],
    ensures
        no_trailing_blanks(terminated(ls)),
        ls.len() > 0 ==> terminated(ls).len() > 0 && terminated(ls).last() == '\n',
    decreases ls.len(),
{
    if ls.len() > 0 {
        let init = ls.drop_last();
        assert forall|k: int| 0 <= k < init.len() implies lacks(#[trigger] init[k], '\n') && rtrim(init[k])
            == init[k] by {
            assert(init[k] == ls[k]);
        }
        lemma_terminated_blanks(init);
        let a = terminated(init);
        let b = ls.last();
        assert(lacks(b, '\n') && rtrim(b) == b);
        let all = a + b + seq!['\n'];
        assert(terminated(ls) == all);
        assert forall|i: int| 0 < i < all.len() && #[trigger] all[i] == '\n' implies all[i - 1] != ' ' && all[i - 1]
            != '\t' by {
            if i < a.len() {
                assert(all[i] == a[i] && all[i - 1] == a[i - 1]);
                assert(a[i] == '\n');
            } else if i < a.len() + b.len() {
                assert(all[i] == b[i - a.len()]);
                assert(b[i - a.len()] != '\n');
            } else if b.len() > 0 {
                assert(all[i - 1] == b.last());
                if b.last() == ' ' || b.last() == '\t' {
                    lemma_rtrim(b.drop_last());
                    assert(rtrim(b) == rtrim(b.drop_last()));
                }
            } else {
                assert(all[i - 1] == a.last());
                assert(a.len() > 0);
                assert(init.len() > 0) by {
                    if init.len() == 0 {
                        assert(a.len() == 0);
                    }
                }
            }
        }
    }
}

/// Normalized Workshop text holds no `\r`, no line of it ends in a space or
/// a tab, and it is empty or ends in exactly one `\n`.
pub proof fn lemma_normalized_shape(text: Seq<char>)
    ensures
        lacks(normalized_workshop(text), '\r'),
        no_trailing_blanks(normalized_workshop(text)),
        normalized_workshop(text).len() == 0 || ({
            let r = normalized_workshop(text);
            r.len() >= 2 && r.last() == '\n' && r[r.len() - 2] != '\n'
        }),
{
    if text.len() > 0 {
        let u = unify_newlines(text);
        lemma_unify(text);
        lemma_split_pieces(u);
        let pieces = split_lines(u);
        let trimmed = pieces.map_values(|l: Seq<char>| rtrim(l));
        let ls = drop_blank_tail(trimmed);
        lemma_drop_blank_tail(trimmed);
        assert forall|k: int| 0 <= k < ls.len() implies lacks(#[trigger] ls[k], '\n') && lacks(
            ls[k],
            '\r',
        ) && rtrim(ls[k]) == ls[k] by {
            assert(ls[k] == trimmed[k]);
            lemma_rtrim(pieces[k]);
            assert(lacks(pieces[k], '\n'));
            assert(lacks(pieces[k], '\r'));
            let r = rtrim(pieces[k]);
            assert forall|i: int| 0 <= i < r.len() implies r[i] != '\n' && r[i] != '\r' by {
                assert(r[i] == pieces[k].take(r.len() as int)[i]);
                assert(r[i] == pieces[k][i]);
            }
        }
        let t = terminated(ls);
        assert(t == normalized_workshop(text));
        lemma_terminated_lacks_r(ls);
        lemma_terminated_blanks(ls);
        if ls.len() > 0 {
            let a = terminated(ls.drop_last());
            let b = ls.last();
            assert(t == a + b + seq!['\n']);
            assert(b.len() > 0);
            assert(lacks(b, '\n'));
            assert(t[t.len() - 2] == b.last());
        } else {
            assert(t.len() == 0);
        }
    }
}

} // verus!
