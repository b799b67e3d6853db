//! Leaving the declaration sections out of emitted Workshop text.
//!
//! Each declared variable and subroutine has a marker line, `index: name`
//! or the bare name. Where a line of the output, trimmed, is a marker, the
//! block around it is removed: from the nearest line at or above it that
//! starts without indentation and ends with `{`, down to the line where the
//! braces opened there are closed again, and one blank line after it.
use vstd::prelude::*;
use crate::format_chunks::{find_char, find_from, lemma_find_char};
use crate::rule_names::{char_is_whitespace, is_white_space, skip_white_space, skip_ws};
use crate::strings::{chars_of, contains_name, decimal, decimal_chars, push_str, string_of, views};

verus! {

/// The lines of `s` from position `cur` on, each with its `\n`; the last
/// line has none where `s` does not end with one.
pub open spec fn lines_from(s: Seq<char>, cur: int) -> Seq<Seq<char>>
    decreases s.len() - cur,
{
    if cur < 0 || cur >= s.len() {
        Seq::empty()
    } else {
        match find_char(s, '\n', cur) {
            Some(k) => {
                proof {
                    lemma_find_char(s, '\n', cur);
                }
                seq![s.subrange(cur, k + 1)] + lines_from(s, k + 1)
            },
            None => seq![s.subrange(cur, s.len() as int)],
        }
    }
}

/// The lines of `s`, each with its `\n`.
pub open spec fn inclusive_lines(s: Seq<char>) -> Seq<Seq<char>> {
    lines_from(s, 0)
}

/// The end of `l[..e]` once trailing whitespace is cut.
pub open spec fn trim_end_at(l: Seq<char>, e: int) -> int
    decreases e,
{
    if e > 0 && e <= l.len() && is_white_space(l[e - 1]) {
        trim_end_at(l, e - 1)
    } else {
        e
    }
}

/// The line without leading and trailing whitespace.
pub open spec fn trimmed(l: Seq<char>) -> Seq<char> {
    let a = skip_white_space(l, 0);
    let b = trim_end_at(l, l.len() as int);
    if a < b {
        l.subrange(a, b)
    } else {
        Seq::empty()
    }
}

/// Whether a line, without its trailing whitespace, starts without
/// whitespace and ends with `{`.
pub open spec fn is_opener(l: Seq<char>) -> bool {
    let b = trim_end_at(l, l.len() as int);
    b > 0 && !is_white_space(l[0]) && l[b - 1] == '{'
}

/// The last line at or above line `c` that opens a section.
pub open spec fn find_opener(ls: Seq<Seq<char>>, c: int) -> Option<int>
    decreases c + 1,
{
    if c < 0 || c >= ls.len() {
        None
    } else if is_opener(ls[c]) {
        Some(c)
    } else {
        find_opener(ls, c - 1)
    }
}

/// How often `ch` occurs in `l`.
pub open spec fn count_char(l: Seq<char>, ch: char) -> nat
    decreases l.len(),
{
    if l.len() == 0 {
        0
    } else {
        count_char(l.drop_last(), ch) + if l.last() == ch {
            1nat
        } else {
            0nat
        }
    }
}

/// The brace depth after line `l`, starting from `depth`; it never drops
/// below zero.
pub open spec fn depth_after(l: Seq<char>, depth: nat) -> nat {
    let opened = depth + count_char(l, '{');
    let closed = count_char(l, '}');
    if opened >= closed {
        (opened - closed) as nat
    } else {
        0
    }
}

/// The line, from `cand` on, where the depth comes back to zero; `start`
/// where it never does.
pub open spec fn block_end(ls: Seq<Seq<char>>, start: int, cand: int, depth: nat) -> int
    decreases ls.len() - cand,
{
    if cand < 0 || cand >= ls.len() {
        start
    } else if depth_after(ls[cand], depth) == 0 {
        cand
    } else {
        block_end(ls, start, cand + 1, depth_after(ls[cand], depth))
    }
}

/// Whether the marker line `m` removes line `i`.
pub open spec fn removed_by(ls: Seq<Seq<char>>, markers: Seq<Seq<char>>, m: int, i: int) -> bool {
    &&& 0 <= m < ls.len()
    &&& markers.contains(trimmed(ls[m]))
    &&& match find_opener(ls, m) {
        Some(s) => {
            let e = block_end(ls, s, s, 0);
            (s <= i <= e) || (i == e + 1 && i < ls.len() && trimmed(ls[i]).len() == 0)
        },
        None => false,
    }
}

/// Whether some marker line removes line `i`.
pub open spec fn line_removed(ls: Seq<Seq<char>>, markers: Seq<Seq<char>>, i: int) -> bool {
    exists|m: int| 0 <= m < ls.len() && #[trigger] removed_by(ls, markers, m, i)
}

/// The lines before line `k` that stay, joined.
pub open spec fn kept_text(ls: Seq<Seq<char>>, markers: Seq<Seq<char>>, k: int) -> Seq<char>
    decreases k,
{
    if k <= 0 {
        Seq::empty()
    } else {
        kept_text(ls, markers, k - 1) + if line_removed(ls, markers, k - 1) {
            Seq::empty()
        } else {
            ls[k - 1]
        }
    }
}

/// The output without the sections that the markers name.
pub open spec fn omitted(output: Seq<char>, markers: Seq<Seq<char>>) -> Seq<char> {
    if markers.len() == 0 {
        output
    } else {
        let ls = inclusive_lines(output);
        kept_text(ls, markers, ls.len() as int)
    }
}

/// The marker of a declaration: `index: name`, or the name where there is
/// no index.
pub open spec fn declaration_marker(name: Seq<char>, index: Option<u32>) -> Seq<char> {
    match index {
        Some(i) => decimal(i as nat) + ": "@ + name,
        None => name,
    }
}

/// The markers of the declarations, in order.
pub open spec fn markers_of(decls: Seq<(Seq<char>, Option<u32>)>) -> Seq<Seq<char>> {
    decls.map_values(|d: (Seq<char>, Option<u32>)| declaration_marker(d.0, d.1))
}

/// The total length of the lines `a..b`.
pub open spec fn lens(ls: Seq<Seq<char>>, a: int, b: int) -> nat
    decreases b - a,
{
    if b <= a {
        0
    } else {
        lens(ls, a, b - 1) + ls[b - 1].len()
    }
}

/// The lengths of consecutive ranges of lines add up.
pub proof fn lemma_lens_split(ls: Seq<Seq<char>>, a: int, b: int, c: int)
    requires
        a <= b <= c,
    ensures
        lens(ls, a, c) == lens(ls, a, b) + lens(ls, b, c),
    decreases c - b,
{
    if b < c {
        lemma_lens_split(ls, a, b, c - 1);
    }
}

/// Putting a line in front shifts the ranges by one.
proof fn lemma_lens_prepend(x: Seq<char>, r: Seq<Seq<char>>, n: int)
    requires
        0 <= n <= r.len(),
    ensures
        lens(seq![x] + r, 1, n + 1) == lens(r, 0, n),
    decreases n,
{
    if n > 0 {
        lemma_lens_prepend(x, r, n - 1);
        assert((seq![x] + r)[n] == r[n - 1]);
    }
}

/// The lines from `cur` on hold the characters from `cur` on.
proof fn lemma_lines_total(s: Seq<char>, cur: int)
    requires
        0 <= cur <= s.len(),
    ensures
        lens(lines_from(s, cur), 0, lines_from(s, cur).len() as int) == s.len() - cur,
    decreases s.len() - cur,
{
    if cur < s.len() {
        lemma_find_char(s, '\n', cur);
        match find_char(s, '\n', cur) {
            Some(k) => {
                let x = s.subrange(cur, k + 1);
                let r = lines_from(s, k + 1);
                lemma_lines_total(s, k + 1);
                let ls = seq![x] + r;
                assert(lines_from(s, cur) == ls);
                lemma_lens_split(ls, 0, 1, ls.len() as int);
                lemma_lens_prepend(x, r, r.len() as int);
                assert(lens(ls, 0, 1) == lens(ls, 0, 0) + ls[0].len());
                assert(ls[0] == x);
            },
            None => {
                let ls = seq![s.subrange(cur, s.len() as int)];
                assert(lines_from(s, cur) == ls);
                assert(lens(ls, 0, 1) == lens(ls, 0, 0) + ls[0].len());
            },
        }
    }
}

/// A character occurs at most as often as the line is long.
proof fn lemma_count_char_bound(l: Seq<char>, ch: char)
    ensures
        count_char(l, ch) <= l.len(),
    decreases l.len(),
{
    if l.len() > 0 {
        lemma_count_char_bound(l.drop_last(), ch);
    }
}

/// The lines of `s`, each with its `\n`.
pub(crate) fn line_list(s: &Vec<char>) -> (r: Vec<Vec<char>>)
    ensures
        line_views(r@) == inclusive_lines(s@),
{
    let mut r: Vec<Vec<char>> = Vec::new();
    let mut cur: usize = 0;
    while cur < s.len()
        invariant
            cur <= s@.len(),
            r@.map_values(|l: Vec<char>| l@) + lines_from(s@, cur as int) == lines_from(s@, 0),
        decreases s@.len() - cur,
    {
        let ghost before = r@.map_values(|l: Vec<char>| l@);
        proof {
            lemma_find_char(s@, '\n', cur as int);
        }
        let end = match find_from(s, '\n', cur) {
            Some(k) => k + 1,
            None => s.len(),
        };
        let mut line: Vec<char> = Vec::new();
        let mut j: usize = cur;
        while j < end
            invariant
                cur <= j <= end <= s@.len(),
                line@ == s@.subrange(cur as int, j as int),
            decreases end - j,
        {
            line.push(s[j]);
            j = j + 1;
            assert(line@ =~= s@.subrange(cur as int, j as int));
        }
        r.push(line);
        assert(r@.map_values(|l: Vec<char>| l@) =~= before.push(s@.subrange(cur as int, end as int)));
        proof {
            match find_char(s@, '\n', cur as int) {
                Some(k) => {
                    assert(lines_from(s@, cur as int) == seq![s@.subrange(cur as int, k + 1)] + lines_from(s@, k + 1));
                    assert(before.push(s@.subrange(cur as int, end as int)) + lines_from(s@, end as int) =~= before + lines_from(s@, cur as int));
                },
                None => {
                    assert(lines_from(s@, cur as int) == seq![s@.subrange(cur as int, s@.len() as int)]);
                    assert(lines_from(s@, end as int) == Seq::<Seq<char>>::empty());
                    assert(before.push(s@.subrange(cur as int, end as int)) + lines_from(s@, end as int) =~= before + lines_from(s@, cur as int));
                },
            }
        }
        cur = end;
    }
    assert(lines_from(s@, cur as int) == Seq::<Seq<char>>::empty());
    assert(r@.map_values(|l: Vec<char>| l@) =~= r@.map_values(|l: Vec<char>| l@) + Seq::<Seq<char>>::empty());
    assert(line_views(r@) =~= r@.map_values(|l: Vec<char>| l@));
    r
}

/// Where the line ends once its trailing whitespace is cut.
fn trim_end_len(l: &Vec<char>) -> (r: usize)
    ensures
        r == trim_end_at(l@, l@.len() as int),
        r <= l@.len(),
        r > 0 ==> !is_white_space(l@[r - 1]),
{
    let mut e = l.len();
    while e > 0 && char_is_whitespace(l[e - 1])
        invariant
            e <= l@.len(),
            trim_end_at(l@, l@.len() as int) == trim_end_at(l@, e as int),
        decreases e,
    {
        e = e - 1;
    }
    e
}

/// The line without leading and trailing whitespace.
pub(crate) fn trimmed_chars(l: &Vec<char>) -> (r: Vec<char>)
    ensures
        r@ == trimmed(l@),
{
    let a = skip_ws(l.as_slice(), 0);
    let b = trim_end_len(l);
    let mut r: Vec<char> = Vec::new();
    if a < b {
        let mut j: usize = a;
        while j < b
            invariant
                a <= j <= b <= l@.len(),
                r@ == l@.subrange(a as int, j as int),
            decreases b - j,
        {
            r.push(l[j]);
            j = j + 1;
            assert(r@ =~= l@.subrange(a as int, j as int));
        }
    } else {
        assert(r@ =~= Seq::<char>::empty());
    }
    r
}

/// Whether the line opens a section.
fn is_opener_line(l: &Vec<char>) -> (r: bool)
    ensures
        r == is_opener(l@),
{
    let b = trim_end_len(l);
    b > 0 && !char_is_whitespace(l[0]) && l[b - 1] == '{'
}

/// How often `ch` occurs in the line.
fn count_in(l: &Vec<char>, ch: char) -> (r: usize)
    ensures
        r == count_char(l@, ch),
{
    let mut n: usize = 0;
    let mut j: usize = 0;
    while j < l.len()
        invariant
            j <= l@.len(),
            n == count_char(l@.take(j as int), ch),
            n <= j,
        decreases l@.len() - j,
    {
        assert(l@.take(j + 1).drop_last() =~= l@.take(j as int));
        if l[j] == ch {
            n = n + 1;
        }
        j = j + 1;
    }
    assert(l@.take(l@.len() as int) =~= l@);
    n
}

pub open spec fn line_views(lines: Seq<Vec<char>>) -> Seq<Seq<char>> {
    lines.map_values(|l: Vec<char>| l@)
}

/// The line where the section opened at `start` closes: where the brace
/// depth counted from `start` comes back to zero, or `start` itself where
/// it never does.
fn section_end(lines: &Vec<Vec<char>>, start: usize) -> (end: usize)
    requires
        start < lines@.len(),
        lens(line_views(lines@), 0, lines@.len() as int) <= usize::MAX,
    ensures
        end == block_end(line_views(lines@), start as int, start as int, 0),
        start <= end < lines@.len(),
{
    let ghost ls = line_views(lines@);
    let n = lines.len();
    proof {
        lemma_lens_split(ls, 0, start as int, n as int);
    }
    let mut depth: usize = 0;
    let mut cand: usize = start;
    let mut end: usize = start;
    let mut done = false;
    while cand < n && !done
        invariant
            n == lines@.len(),
            ls == line_views(lines@),
            start <= cand <= n,
            start < n,
            lens(ls, start as int, n as int) <= usize::MAX,
            !done ==> block_end(ls, start as int, start as int, 0) == block_end(
                ls,
                start as int,
                cand as int,
                depth as nat,
            ),
            !done ==> depth <= lens(ls, start as int, cand as int),
            !done ==> depth > 0 || cand == start,
            done ==> end == block_end(ls, start as int, start as int, 0) && start <= end < n,
            !done ==> end == start,
        decreases n - cand, if done { 0int } else { 1int },
    {
        proof {
            lemma_count_char_bound(ls[cand as int], '{');
            lemma_lens_split(ls, start as int, cand + 1, n as int);
            assert(ls[cand as int] == lines@[cand as int]@);
        }
        let opened = depth + count_in(&lines[cand], '{');
        let closed = count_in(&lines[cand], '}');
        depth = opened.saturating_sub(closed);
        if depth == 0 {
            end = cand;
            done = true;
        } else {
            cand = cand + 1;
        }
    }
    end
}

/// The output without the sections that the markers name.
pub fn omit_marked_sections(output: &str, markers: &Vec<String>) -> (r: String)
    ensures
        r@ == omitted(output@, views(markers@)),
{
    let chars = chars_of(output);
    if markers.len() == 0 {
        return string_of(&chars);
    }
    let lines = line_list(&chars);
    let ghost ls = line_views(lines@);
    let ghost mk = views(markers@);
    let n = lines.len();
    let total = chars.len();
    proof {
        lemma_lines_total(chars@, 0);
        assert(ls == lines_from(chars@, 0));
        assert(ls.len() == n);
        assert(total == chars@.len());
        assert(lens(ls, 0, n as int) <= usize::MAX);
    }
    let mut removed: Vec<bool> = Vec::new();
    let mut i: usize = 0;
    while i < n
        invariant
            i <= n,
            lens(ls, 0, n as int) <= usize::MAX,
            removed@.len() == i,
            forall|j: int| 0 <= j < i ==> !removed@[j],
        decreases n - i,
    {
        removed.push(false);
        i = i + 1;
    }
    let mut index: usize = 0;
    while index < n
        invariant
            n == lines@.len(),
            ls == line_views(lines@),
            mk == views(markers@),
            removed@.len() == n,
            index <= n,
            lens(ls, 0, n as int) <= usize::MAX,
            forall|j: int|
                0 <= j < n ==> removed@[j] == exists|m: int|
                    0 <= m < index && #[trigger] removed_by(ls, mk, m, j),
        decreases n - index,
    {
        let ghost before = removed@;
        let t = trimmed_chars(&lines[index]);
        let ts = string_of(&t);
        assert(ls[index as int] == lines@[index as int]@);
        let is_marker = contains_name(markers, ts.as_str());
        let mut start_found: Option<usize> = None;
        if is_marker {
            let mut c: usize = index + 1;
            while c > 0 && start_found.is_none()
                invariant
                    n == lines@.len(),
                    ls == line_views(lines@),
                    c <= index + 1,
                    index < n,
                    start_found is None ==> find_opener(ls, index as int) == find_opener(ls, c - 1),
                    start_found matches Some(st) ==> find_opener(ls, index as int) == Some(st as int)
                        && st < n,
                decreases c, if start_found is None { 1int } else { 0int },
            {
                assert(ls[c - 1] == lines@[c - 1]@);
                if is_opener_line(&lines[c - 1]) {
                    start_found = Some(c - 1);
                } else {
                    c = c - 1;
                }
            }
        }
        match start_found {
            Some(start) => {
                let end = section_end(&lines, start);
                let mut k: usize = start;
                while k <= end
                    invariant
                        start <= k <= end + 1,
                        end < n,
                        removed@.len() == n,
                        before.len() == n,
                        forall|j: int|
                            0 <= j < n ==> removed@[j] == (before[j] || (start <= j < k)),
                    decreases end + 1 - k,
                {
                    removed.set(k, true);
                    k = k + 1;
                }
                let ghost mid = removed@;
                assert(forall|j: int|
                    0 <= j < n ==> mid[j] == (before[j] || (start <= j <= end)));
                let mut blank = false;
                if end + 1 < n {
                    let next = trimmed_chars(&lines[end + 1]);
                    assert(ls[end + 1] == lines@[end + 1]@);
                    if next.len() == 0 {
                        removed.set(end + 1, true);
                        blank = true;
                    }
                }
                assert(removed@ == if blank { mid.update(end + 1, true) } else { mid });
                assert(blank == (end + 1 < n && trimmed(ls[end + 1]).len() == 0));
                assert(forall|j: int|
                    0 <= j < n ==> removed@[j] == (before[j] || (start <= j <= end) || (blank && j
                        == end + 1)));
                assert(mk.contains(trimmed(ls[index as int])));
                proof {
                    assert forall|j: int| 0 <= j < n implies removed@[j] == exists|m: int|
                        0 <= m < index + 1 && #[trigger] removed_by(ls, mk, m, j) by {
                        if removed_by(ls, mk, index as int, j) {
                            assert(removed@[j]);
                        }
                        if removed@[j] && !before[j] {
                            assert(removed_by(ls, mk, index as int, j));
                        }
                        if exists|m: int| 0 <= m < index && #[trigger] removed_by(ls, mk, m, j) {
                            assert(before[j]);
                        }
                    }
                }
            },
            None => {
                proof {
                    assert forall|j: int| 0 <= j < n implies removed@[j] == exists|m: int|
                        0 <= m < index + 1 && #[trigger] removed_by(ls, mk, m, j) by {
                        assert(!removed_by(ls, mk, index as int, j));
                    }
                }
            },
        }
        index = index + 1;
    }
    let mut out: Vec<char> = Vec::new();
    let mut i: usize = 0;
    while i < n
        invariant
            i <= n,
            n == lines@.len(),
            ls == line_views(lines@),
            mk == views(markers@),
            removed@.len() == n,
            forall|j: int| 0 <= j < n ==> removed@[j] == line_removed(ls, mk, j),
            out@ == kept_text(ls, mk, i as int),
        decreases n - i,
    {
        if !removed[i] {
            let ghost o = out@;
            let line = &lines[i];
            let mut j: usize = 0;
            while j < line.len()
                invariant
                    j <= line@.len(),
                    out@ == o + line@.take(j as int),
                decreases line@.len() - j,
            {
                out.push(line[j]);
                j = j + 1;
                assert(out@ =~= o + line@.take(j as int));
            }
            assert(line@.take(line@.len() as int) =~= line@);
            assert(ls[i as int] == line@);
        } else {
            assert(out@ =~= kept_text(ls, mk, i as int) + Seq::<char>::empty());
        }
        i = i + 1;
    }
    string_of(&out)
}

/// The declarations as plain names and indices.
pub open spec fn declaration_views(decls: Seq<(String, Option<u32>)>) -> Seq<(Seq<char>, Option<u32>)> {
    decls.map_values(|d: (String, Option<u32>)| (d.0@, d.1))
}

/// The marker of a declaration: `index: name`, or the name where there is
/// no index.
pub fn declaration_marker_text(name: &str, index: Option<u32>) -> (r: String)
    ensures
        r@ == declaration_marker(name@, index),
{
    match index {
        Some(i) => {
            let mut v = decimal_chars(i as u64);
            push_str(&mut v, ": ");
            push_str(&mut v, name);
            string_of(&v)
        },
        None => string_of(&chars_of(name)),
    }
}

/// The markers of the declarations, in order.
pub fn declaration_markers(decls: &Vec<(String, Option<u32>)>) -> (r: Vec<String>)
    ensures
        views(r@) == markers_of(declaration_views(decls@)),
{
    let mut r: Vec<String> = Vec::new();
    let mut i: usize = 0;
    while i < decls.len()
        invariant
            i <= decls@.len(),
            r@.len() == i,
            forall|k: int|
                0 <= k < i ==> (#[trigger] r@[k])@ == declaration_marker(decls@[k].0@, decls@[k].1),
        decreases decls@.len() - i,
    {
        r.push(declaration_marker_text(decls[i].0.as_str(), decls[i].1));
        i = i + 1;
    }
    assert(views(r@) =~= markers_of(declaration_views(decls@)));
    r
}

/// The declared global variables, then the player variables, then the
/// subroutines of a Workshop `Program`, each as its name and its declared
/// index, in the order of the program's public fields.
pub uninterp spec fn workshop_declarations(program: workshop_rs::program::Program) -> Seq<(Seq<char>, Option<u32>)>;

/// Reads the declarations of a Workshop `Program` from its public fields
/// `global_variables`, `player_variables` and `subroutines`; the contract
/// says that the result is `workshop_declarations` of the program.
#[verifier::external_body]
fn program_declarations(program: &workshop_rs::program::Program) -> (r: Vec<(String, Option<u32>)>)
    ensures
        declaration_views(r@) == workshop_declarations(*program),
{
    program.global_variables.iter().chain(program.player_variables.iter()).map(
        |v| (v.name.clone(), v.index),
    ).chain(program.subroutines.iter().map(|s| (s.name.clone(), s.index))).collect()
}

/// The output without the sections of the program's declared variables and
/// subroutines: the output loses exactly the sections that the markers of
/// the program's declarations name.
pub fn omit_declaration_sections(output: &str, program: &workshop_rs::program::Program) -> (r: String)
    ensures
        r@ == omitted(output@, markers_of(workshop_declarations(*program))),
{
    let decls = program_declarations(program);
    let markers = declaration_markers(&decls);
    let r = omit_marked_sections(output, &markers);
    assert(r@ == omitted(output@, markers_of(declaration_views(decls@))));
    r
}

/// The lines joined back together.
pub open spec fn joined_lines(ls: Seq<Seq<char>>) -> Seq<char>
    decreases ls.len(),
{
    if ls.len() == 0 {
        Seq::empty()
    } else {
        joined_lines(ls.drop_last()) + ls.last()
    }
}

/// Joining a first line and the rest.
proof fn lemma_joined_prepend(x: Seq<char>, r: Seq<Seq<char>>)
    ensures
        joined_lines(seq![x] + r) == x + joined_lines(r),
    decreases r.len(),
{
    if r.len() == 0 {
        assert(seq![x] + r =~= seq![x]);
        assert(seq![x].drop_last() =~= Seq::<Seq<char>>::empty());
        assert(joined_lines(seq![x]) == joined_lines(seq![x].drop_last()) + seq![x].last());
        assert(joined_lines(Seq::<Seq<char>>::empty()) == Seq::<char>::empty());
        assert(Seq::<char>::empty() + x =~= x);
        assert(x + Seq::<char>::empty() =~= x);
    } else {
        let l = seq![x] + r;
        assert(l.drop_last() =~= seq![x] + r.drop_last());
        assert(l.last() == r.last());
        lemma_joined_prepend(x, r.drop_last());
        assert(joined_lines(l) == joined_lines(l.drop_last()) + l.last());
        assert(joined_lines(r) == joined_lines(r.drop_last()) + r.last());
        assert(x + joined_lines(r) =~= (x + joined_lines(r.drop_last())) + r.last());
    }
}

/// The lines from `cur` on join back to the text from `cur` on.
proof fn lemma_lines_join(s: Seq<char>, cur: int)
    requires
        0 <= cur <= s.len(),
    ensures
        joined_lines(lines_from(s, cur)) == s.subrange(cur, s.len() as int),
    decreases s.len() - cur,
{
    if cur == s.len() {
        assert(s.subrange(cur, cur) =~= Seq::<char>::empty());
    } else {
        lemma_find_char(s, '\n', cur);
        match find_char(s, '\n', cur) {
            Some(k) => {
                assert(lines_from(s, cur) == seq![s.subrange(cur, k + 1)] + lines_from(s, k + 1));
                lemma_lines_join(s, k + 1);
                lemma_joined_prepend(s.subrange(cur, k + 1), lines_from(s, k + 1));
                assert(s.subrange(cur, k + 1) + s.subrange(k + 1, s.len() as int) =~= s.subrange(
                    cur,
                    s.len() as int,
                ));
            },
            None => {
                let x = s.subrange(cur, s.len() as int);
                assert(lines_from(s, cur) == seq![x]);
                assert(seq![x].drop_last() =~= Seq::<Seq<char>>::empty());
                assert(joined_lines(seq![x]) == joined_lines(seq![x].drop_last()) + seq![x].last());
                assert(joined_lines(Seq::<Seq<char>>::empty()) == Seq::<char>::empty());
                assert(Seq::<char>::empty() + x =~= x);
            },
        }
    }
}

/// Where no line is a marker, no line is removed.
proof fn lemma_kept_all(ls: Seq<Seq<char>>, markers: Seq<Seq<char>>, k: int)
    requires
        0 <= k <= ls.len(),
        forall|m: int| 0 <= m < ls.len() ==> !markers.contains(trimmed(#[trigger] ls[m])),
    ensures
        kept_text(ls, markers, k) == joined_lines(ls.take(k)),
    decreases k,
{
    if k > 0 {
        lemma_kept_all(ls, markers, k - 1);
        assert(!line_removed(ls, markers, k - 1)) by {
            if line_removed(ls, markers, k - 1) {
                let m = choose|m: int| 0 <= m < ls.len() && #[trigger] removed_by(ls, markers, m, k - 1);
                assert(!markers.contains(trimmed(ls[m])));
            }
        }
        assert(ls.take(k).drop_last() =~= ls.take(k - 1));
    }
}

/// Where no line of the output, trimmed, is a marker, the output is kept as
/// it is.
pub proof fn lemma_unmarked_output_is_kept(output: Seq<char>, markers: Seq<Seq<char>>)
    requires
        forall|m: int|
            0 <= m < inclusive_lines(output).len() ==> !markers.contains(
                trimmed(#[trigger] inclusive_lines(output)[m]),
            ),
    ensures
        omitted(output, markers) == output,
{
    if markers.len() > 0 {
        let ls = inclusive_lines(output);
        lemma_kept_all(ls, markers, ls.len() as int);
        assert(ls.take(ls.len() as int) =~= ls);
        lemma_lines_join(output, 0);
        assert(output.subrange(0, output.len() as int) =~= output);
    }
}

} // verus!
