//! The translation files of a translated program.
//!
//! For each language but the first, a gettext file lists the texts the
//! program uses, sorted and without repeats, each with its translation
//! into that language, or an empty one where none is known.
use vstd::prelude::*;
use crate::directives::{directive_names, has_directive};
use crate::hir::{ResolvedProgram, TranslationEntry};
use crate::strings::{chars_eq, chars_of, push_chars, push_str, str_eq, string_of};

verus! {

/// A text with its optional context.
pub type Key = (Seq<char>, Option<Seq<char>>);

/// The hexadecimal digit of `d`, in lower case.
pub open spec fn hex_digit(d: nat) -> char {
    if d < 10 {
        ('0' as nat + d) as char
    } else {
        ('a' as nat + (d - 10)) as char
    }
}

/// How a JSON string literal writes a character: `"` and `\` after a
/// backslash, the control characters below U+0020 as `\b`, `\t`, `\n`,
/// `\f`, `\r` or `\u00xx`, and every other character as itself.
pub open spec fn json_char(c: char) -> Seq<char> {
    if c == '"' {
        seq!['\\', '"']
    } else if c == '\\' {
        seq!['\\', '\\']
    } else if c == '\u{8}' {
        seq!['\\', 'b']
    } else if c == '\t' {
        seq!['\\', 't']
    } else if c == '\n' {
        seq!['\\', 'n']
    } else if c == '\u{c}' {
        seq!['\\', 'f']
    } else if c == '\r' {
        seq!['\\', 'r']
    } else if (c as nat) < 0x20 {
        seq!['\\', 'u', '0', '0', hex_digit((c as nat) / 16), hex_digit((c as nat) % 16)]
    } else {
        seq![c]
    }
}

/// The characters of `s` as a JSON string literal writes them.
pub open spec fn json_chars(s: Seq<char>) -> Seq<char>
    decreases s.len(),
{
    if s.len() == 0 {
        Seq::empty()
    } else {
        json_chars(s.drop_last()) + json_char(s.last())
    }
}

/// The JSON string literal of `s`.
pub open spec fn json_string(s: Seq<char>) -> Seq<char> {
    seq!['"'] + json_chars(s) + seq!['"']
}

/// Whether `a` comes before `b` in character order from position `i` on,
/// the characters before `i` being equal.
pub open spec fn less_from(a: Seq<char>, b: Seq<char>, i: int) -> bool
    decreases a.len() - i,
{
    if i < 0 || i >= a.len() {
        0 <= i < b.len()
    } else if i >= b.len() {
        false
    } else if a[i] < b[i] {
        true
    } else if a[i] > b[i] {
        false
    } else {
        less_from(a, b, i + 1)
    }
}

/// Whether `a` comes before `b` in the order of `str`: by their first
/// differing character, a prefix first.
pub open spec fn text_less(a: Seq<char>, b: Seq<char>) -> bool {
    less_from(a, b, 0)
}

/// The order of optional contexts: none first.
pub open spec fn context_less(a: Option<Seq<char>>, b: Option<Seq<char>>) -> bool {
    match (a, b) {
        (None, Some(_)) => true,
        (Some(x), Some(y)) => text_less(x, y),
        _ => false,
    }
}

/// The order of keys: by text, then by context.
pub open spec fn key_less(a: Key, b: Key) -> bool {
    text_less(a.0, b.0) || (a.0 == b.0 && context_less(a.1, b.1))
}

/// Whether `out` holds the keys of `keys`, each once, in ascending order.
pub open spec fn sorted_unique(out: Seq<Key>, keys: Seq<Key>) -> bool {
    &&& forall|p: int, q: int| 0 <= p < q < out.len() ==> key_less(#[trigger] out[p], #[trigger] out[q])
    &&& forall|p: int| 0 <= p < out.len() ==> keys.contains(#[trigger] out[p])
    &&& forall|k: Key| keys.contains(k) ==> #[trigger] out.contains(k)
}

/// The value of the first pair with this key.
pub open spec fn lookup_pair(pairs: Seq<(String, String)>, key: Seq<char>) -> Option<Seq<char>>
    decreases pairs.len(),
{
    if pairs.len() == 0 {
        None
    } else if pairs[0].0@ == key {
        Some(pairs[0].1@)
    } else {
        lookup_pair(pairs.subrange(1, pairs.len() as int), key)
    }
}

/// The key of a known text.
pub open spec fn entry_key(e: TranslationEntry) -> Key {
    (
        e.msgid@,
        match e.context {
            Some(c) => Some(c@),
            None => None,
        },
    )
}

/// The translation into `language` of the first known text with this key,
/// or an empty text.
pub open spec fn translated(entries: Seq<TranslationEntry>, key: Key, language: Seq<char>) -> Seq<
    char,
>
    decreases entries.len(),
{
    if entries.len() == 0 {
        Seq::empty()
    } else if entry_key(entries[0]) == key {
        match lookup_pair(entries[0].translations@, language) {
            Some(t) => t,
            None => Seq::empty(),
        }
    } else {
        translated(entries.subrange(1, entries.len() as int), key, language)
    }
}

/// The head of the file for `language`.
pub open spec fn po_header(language: Seq<char>) -> Seq<char> {
    "msgid \"\"\nmsgstr \"\"\n\"Content-Type: text/plain; charset=UTF-8\\n\"\n"@
        + "\"Language: "@ + language + "\\n\"\n\n"@
}

/// The lines of one text in the file for `language`.
pub open spec fn po_entry(entries: Seq<TranslationEntry>, key: Key, language: Seq<char>) -> Seq<char> {
    (match key.1 {
        Some(c) => "msgctxt "@ + json_string(c) + "\n"@,
        None => Seq::empty(),
    }) + "msgid "@ + json_string(key.0) + "\n"@ + "msgstr "@ + json_string(
        translated(entries, key, language),
    ) + "\n\n"@
}

/// The lines of the texts, in order.
pub open spec fn po_entries(entries: Seq<TranslationEntry>, keys: Seq<Key>, language: Seq<char>) -> Seq<
    char,
>
    decreases keys.len(),
{
    if keys.len() == 0 {
        Seq::empty()
    } else {
        po_entries(entries, keys.drop_last(), language) + po_entry(entries, keys.last(), language)
    }
}

/// The file for `language`, listing the texts `keys`.
pub open spec fn po_file(entries: Seq<TranslationEntry>, keys: Seq<Key>, language: Seq<char>) -> Seq<
    char,
> {
    po_header(language) + po_entries(entries, keys, language)
}

/// The keys of texts the program uses.
pub open spec fn use_keys(uses: Seq<(String, Option<String>)>) -> Seq<Key> {
    uses.map_values(|k: (String, Option<String>)| key_view(k))
}

/// The keys to list: those used, and every known one where the program
/// keeps unused translations.
pub open spec fn listed_keys(
    uses: Seq<(String, Option<String>)>,
    entries: Seq<TranslationEntry>,
    keep_unused: bool,
) -> Seq<Key> {
    use_keys(uses) + if keep_unused {
        entries.map_values(|e: TranslationEntry| entry_key(e))
    } else {
        Seq::empty()
    }
}

} // verus!
verus! {

/// No text comes before itself.
pub proof fn lemma_less_irreflexive(a: Seq<char>, i: int)
    ensures
        !less_from(a, a, i),
    decreases a.len() - i,
{
    if 0 <= i < a.len() {
        lemma_less_irreflexive(a, i + 1);
    }
}

/// Of two texts, at most one comes first.
pub proof fn lemma_less_asymmetric(a: Seq<char>, b: Seq<char>, i: int)
    requires
        less_from(a, b, i),
    ensures
        !less_from(b, a, i),
    decreases a.len() - i,
{
    if 0 <= i < a.len() && i < b.len() && a[i] == b[i] {
        lemma_less_asymmetric(a, b, i + 1);
    }
}

/// The order of texts is transitive.
pub proof fn lemma_less_transitive(a: Seq<char>, b: Seq<char>, c: Seq<char>, i: int)
    requires
        0 <= i,
        less_from(a, b, i),
        less_from(b, c, i),
    ensures
        less_from(a, c, i),
    decreases a.len() - i,
{
    if i < a.len() && i < b.len() && i < c.len() && a[i] == b[i] && b[i] == c[i] {
        lemma_less_transitive(a, b, c, i + 1);
    }
}

/// Of two different texts that agree before `i`, one comes first.
pub proof fn lemma_less_total(a: Seq<char>, b: Seq<char>, i: int)
    requires
        0 <= i <= a.len(),
        i <= b.len(),
        a != b,
        forall|j: int| 0 <= j < i ==> a[j] == b[j],
    ensures
        less_from(a, b, i) || less_from(b, a, i),
    decreases a.len() - i,
{
    if i == a.len() && i == b.len() {
        assert(a =~= b);
    } else if i < a.len() && i < b.len() && a[i] == b[i] {
        lemma_less_total(a, b, i + 1);
    }
}

/// The order of keys is a strict total order.
pub proof fn lemma_key_order(a: Key, b: Key, c: Key)
    ensures
        !key_less(a, a),
        key_less(a, b) ==> !key_less(b, a),
        key_less(a, b) && key_less(b, c) ==> key_less(a, c),
        a != b ==> key_less(a, b) || key_less(b, a),
{
    lemma_less_irreflexive(a.0, 0);
    if let Some(x) = a.1 {
        lemma_less_irreflexive(x, 0);
    }
    if text_less(a.0, b.0) {
        lemma_less_asymmetric(a.0, b.0, 0);
    }
    if a.0 == b.0 {
        if let (Some(x), Some(y)) = (a.1, b.1) {
            if text_less(x, y) {
                lemma_less_asymmetric(x, y, 0);
            }
        }
    }
    if key_less(a, b) && key_less(b, c) {
        if text_less(a.0, b.0) && text_less(b.0, c.0) {
            lemma_less_transitive(a.0, b.0, c.0, 0);
        }
        if let (Some(x), Some(y), Some(z)) = (a.1, b.1, c.1) {
            if text_less(x, y) && text_less(y, z) {
                lemma_less_transitive(x, y, z, 0);
            }
        }
    }
    if a != b {
        if a.0 != b.0 {
            lemma_less_total(a.0, b.0, 0);
        } else if let (Some(x), Some(y)) = (a.1, b.1) {
            if x != y {
                lemma_less_total(x, y, 0);
            }
        }
    }
}

} // verus!
verus! {

/// The plain key of a text and its context.
pub open spec fn key_view(k: (String, Option<String>)) -> Key {
    (
        k.0@,
        match k.1 {
            Some(c) => Some(c@),
            None => None,
        },
    )
}

/// Whether text `a` comes before text `b`.
fn text_less_exec(a: &str, b: &str) -> (r: bool)
    ensures
        r == text_less(a@, b@),
{
    let x = chars_of(a);
    let y = chars_of(b);
    let mut i: usize = 0;
    while i < x.len() && i < y.len() && x[i] == y[i]
        invariant
            i <= x@.len(),
            i <= y@.len(),
            x@ == a@,
            y@ == b@,
            less_from(x@, y@, 0) == less_from(x@, y@, i as int),
        decreases x@.len() - i,
    {
        i = i + 1;
    }
    if i == x.len() {
        i < y.len()
    } else if i == y.len() {
        false
    } else {
        x[i] < y[i]
    }
}

/// Whether key `a` comes before key `b`.
fn key_less_exec(a: &(String, Option<String>), b: &(String, Option<String>)) -> (r: bool)
    ensures
        r == key_less(key_view(*a), key_view(*b)),
{
    if text_less_exec(a.0.as_str(), b.0.as_str()) {
        return true;
    }
    if !str_eq(a.0.as_str(), b.0.as_str()) {
        return false;
    }
    match (&a.1, &b.1) {
        (None, Some(_)) => true,
        (Some(x), Some(y)) => text_less_exec(x.as_str(), y.as_str()),
        _ => false,
    }
}

/// Whether two keys are the same.
fn key_eq_exec(a: &(String, Option<String>), b: &(String, Option<String>)) -> (r: bool)
    ensures
        r == (key_view(*a) == key_view(*b)),
{
    if !str_eq(a.0.as_str(), b.0.as_str()) {
        return false;
    }
    match (&a.1, &b.1) {
        (None, None) => true,
        (Some(x), Some(y)) => str_eq(x.as_str(), y.as_str()),
        _ => false,
    }
}

/// A copy of a key.
fn copy_key(k: &(String, Option<String>)) -> (r: (String, Option<String>))
    ensures
        key_view(r) == key_view(*k),
{
    let context = match &k.1 {
        Some(c) => Some(c.clone()),
        None => None,
    };
    (k.0.clone(), context)
}

/// The plain keys of a list.
pub open spec fn key_views(v: Seq<(String, Option<String>)>) -> Seq<Key> {
    v.map_values(|k: (String, Option<String>)| key_view(k))
}

/// The keys, each once, in ascending order.
fn sorted_keys(keys: &Vec<(String, Option<String>)>) -> (out: Vec<(String, Option<String>)>)
    ensures
        sorted_unique(key_views(out@), key_views(keys@)),
{
    let ghost ks = key_views(keys@);
    let mut out: Vec<(String, Option<String>)> = Vec::new();
    let mut i: usize = 0;
    while i < keys.len()
        invariant
            i <= keys@.len(),
            ks == key_views(keys@),
            forall|p: int, q: int|
                0 <= p < q < out@.len() ==> key_less(
                    #[trigger] key_views(out@)[p],
                    #[trigger] key_views(out@)[q],
                ),
            forall|p: int| 0 <= p < out@.len() ==> ks.take(i as int).contains(#[trigger] key_views(out@)[p]),
            forall|k: Key| ks.take(i as int).contains(k) ==> #[trigger] key_views(out@).contains(k),
        decreases keys@.len() - i,
    {
        let ghost ov = key_views(out@);
        let ghost k = ks[i as int];
        assert(ks.take(i + 1) =~= ks.take(i as int).push(k));
        let mut p: usize = 0;
        while p < out.len() && key_less_exec(&out[p], &keys[i])
            invariant
                p <= out@.len(),
                i < keys@.len(),
                ov == key_views(out@),
                k == key_view(keys@[i as int]),
                forall|j: int| 0 <= j < p ==> key_less(#[trigger] ov[j], k),
            decreases out@.len() - p,
        {
            p = p + 1;
        }
        if p < out.len() && key_eq_exec(&out[p], &keys[i]) {
            proof {
                assert(ov[p as int] == key_view(out@[p as int]));
                assert(ov[p as int] == k);
                assert(ov.contains(k));
                assert forall|q: int| 0 <= q < ov.len() implies ks.take(i + 1).contains(#[trigger] ov[q]) by {
                    assert(ks.take(i as int).contains(ov[q]));
                    let w = choose|w: int| 0 <= w < ks.take(i as int).len() && #[trigger] ks.take(i as int)[w] == ov[q];
                    assert(ks.take(i + 1)[w] == ov[q]);
                }
                assert forall|kk: Key| ks.take(i + 1).contains(kk) implies #[trigger] ov.contains(kk) by {
                    let w = choose|w: int| 0 <= w < ks.take(i + 1).len() && #[trigger] ks.take(i + 1)[w] == kk;
                    if w < i {
                        assert(ks.take(i as int)[w] == kk);
                    }
                }
            }
        } else {
            let c = copy_key(&keys[i]);
            out.insert(p, c);
            proof {
                let nv = key_views(out@);
                assert(nv =~= ov.insert(p as int, k));
                if p < ov.len() {
                    lemma_key_order(ov[p as int], k, k);
                    assert(!key_less(ov[p as int], k));
                    assert(ov[p as int] != k);
                    assert(key_less(k, ov[p as int]));
                }
                assert forall|a: int, b: int| 0 <= a < b < nv.len() implies key_less(
                    #[trigger] nv[a],
                    #[trigger] nv[b],
                ) by {
                    if a < p && b == p {
                        assert(nv[a] == ov[a]);
                    } else if a == p {
                        assert(nv[b] == ov[b - 1]);
                        if b - 1 > p {
                            assert(key_less(ov[p as int], ov[b - 1]));
                            lemma_key_order(k, ov[p as int], ov[b - 1]);
                        }
                    } else if a < p {
                        assert(nv[a] == ov[a]);
                        if b < p {
                            assert(nv[b] == ov[b]);
                        } else {
                            assert(nv[b] == ov[b - 1]);
                        }
                    } else {
                        assert(nv[a] == ov[a - 1]);
                        assert(nv[b] == ov[b - 1]);
                    }
                }
                assert forall|q: int| 0 <= q < nv.len() implies ks.take(i + 1).contains(#[trigger] nv[q]) by {
                    if q == p {
                        assert(ks.take(i + 1)[i as int] == k);
                    } else {
                        let o = if q < p { q } else { q - 1 };
                        assert(nv[q] == ov[o]);
                        assert(ks.take(i as int).contains(ov[o]));
                        let w = choose|w: int| 0 <= w < ks.take(i as int).len() && #[trigger] ks.take(i as int)[w] == ov[o];
                        assert(ks.take(i + 1)[w] == ov[o]);
                    }
                }
                assert forall|kk: Key| ks.take(i + 1).contains(kk) implies #[trigger] nv.contains(kk) by {
                    let w = choose|w: int| 0 <= w < ks.take(i + 1).len() && #[trigger] ks.take(i + 1)[w] == kk;
                    if w < i {
                        assert(ks.take(i as int)[w] == kk);
                        assert(ks.take(i as int).contains(kk));
                        assert(ov.contains(kk));
                        let o = choose|o: int| 0 <= o < ov.len() && #[trigger] ov[o] == kk;
                        if o < p {
                            assert(nv[o] == kk);
                        } else {
                            assert(nv[o + 1] == kk);
                        }
                    } else {
                        assert(nv[p as int] == k);
                    }
                }
            }
        }
        i = i + 1;
    }
    assert(ks.take(ks.len() as int) =~= ks);
    out
}

} // verus!
verus! {

/// The lower-case hexadecimal digit of `d`.
fn hex_char(d: u32) -> (r: char)
    requires
        d < 16,
    ensures
        r == hex_digit(d as nat),
{
    let code: u32 = if d < 10 { 48 + d } else { 97 + (d - 10) };
    match core::char::from_u32(code) {
        Some(c) => c,
        None => '0',
    }
}

/// Appends how a JSON string literal writes `c`.
fn push_json_char(out: &mut Vec<char>, c: char)
    ensures
        final(out)@ == old(out)@ + json_char(c),
{
    if c == '"' {
        out.push('\\');
        out.push('"');
    } else if c == '\\' {
        out.push('\\');
        out.push('\\');
    } else if c == '\u{8}' {
        out.push('\\');
        out.push('b');
    } else if c == '\t' {
        out.push('\\');
        out.push('t');
    } else if c == '\n' {
        out.push('\\');
        out.push('n');
    } else if c == '\u{c}' {
        out.push('\\');
        out.push('f');
    } else if c == '\r' {
        out.push('\\');
        out.push('r');
    } else if (c as u32) < 0x20 {
        let n = c as u32;
        out.push('\\');
        out.push('u');
        out.push('0');
        out.push('0');
        out.push(hex_char(n / 16));
        out.push(hex_char(n % 16));
    } else {
        out.push(c);
    }
    assert(final(out)@ =~= old(out)@ + json_char(c));
}

/// Appends the JSON string literal of `s`.
fn push_json(out: &mut Vec<char>, s: &str)
    ensures
        final(out)@ == old(out)@ + json_string(s@),
{
    let chars = chars_of(s);
    let ghost start = out@;
    out.push('"');
    let mut i: usize = 0;
    while i < chars.len()
        invariant
            i <= chars@.len(),
            chars@ == s@,
            out@ == start + seq!['"'] + json_chars(chars@.take(i as int)),
        decreases chars@.len() - i,
    {
        assert(chars@.take(i + 1).drop_last() =~= chars@.take(i as int));
        push_json_char(out, chars[i]);
        assert(out@ =~= start + seq!['"'] + json_chars(chars@.take(i + 1)));
        i = i + 1;
    }
    assert(chars@.take(i as int) =~= chars@);
    out.push('"');
    assert(out@ =~= start + json_string(s@));
}

/// The value of the first pair with this key.
fn find_pair<'a>(pairs: &'a Vec<(String, String)>, key: &str) -> (r: Option<&'a String>)
    ensures
        match r {
            Some(v) => lookup_pair(pairs@, key@) == Some(v@),
            None => lookup_pair(pairs@, key@) is None,
        },
{
    let mut i: usize = 0;
    assert(pairs@.subrange(0, pairs@.len() as int) =~= pairs@);
    while i < pairs.len()
        invariant
            i <= pairs@.len(),
            lookup_pair(pairs@, key@) == lookup_pair(pairs@.subrange(i as int, pairs@.len() as int), key@),
        decreases pairs@.len() - i,
    {
        let ghost rest = pairs@.subrange(i as int, pairs@.len() as int);
        assert(rest.subrange(1, rest.len() as int) =~= pairs@.subrange(i + 1, pairs@.len() as int));
        assert(rest[0] == pairs@[i as int]);
        if str_eq(pairs[i].0.as_str(), key) {
            return Some(&pairs[i].1);
        }
        i = i + 1;
    }
    None
}

/// The translation into `language` of the first known text with the key.
fn translated_text(entries: &Vec<TranslationEntry>, key: &(String, Option<String>), language: &str) -> (r:
    Vec<char>)
    ensures
        r@ == translated(entries@, key_view(*key), language@),
{
    let mut i: usize = 0;
    assert(entries@.subrange(0, entries@.len() as int) =~= entries@);
    while i < entries.len()
        invariant
            i <= entries@.len(),
            translated(entries@, key_view(*key), language@) == translated(
                entries@.subrange(i as int, entries@.len() as int),
                key_view(*key),
                language@,
            ),
        decreases entries@.len() - i,
    {
        let ghost rest = entries@.subrange(i as int, entries@.len() as int);
        assert(rest.subrange(1, rest.len() as int) =~= entries@.subrange(i + 1, entries@.len() as int));
        assert(rest[0] == entries@[i as int]);
        let candidate = (entries[i].msgid.clone(), match &entries[i].context {
            Some(c) => Some(c.clone()),
            None => None,
        });
        assert(key_view(candidate) == entry_key(entries@[i as int]));
        if key_eq_exec(&candidate, key) {
            return match find_pair(&entries[i].translations, language) {
                Some(t) => chars_of(t.as_str()),
                None => Vec::new(),
            };
        }
        i = i + 1;
    }
    Vec::new()
}

/// The file for `language`, listing the texts `keys`.
fn po_file_text(entries: &Vec<TranslationEntry>, keys: &Vec<(String, Option<String>)>, language: &str) -> (r:
    String)
    ensures
        r@ == po_file(entries@, key_views(keys@), language@),
{
    let mut out: Vec<char> = Vec::new();
    push_str(&mut out, "msgid \"\"\nmsgstr \"\"\n\"Content-Type: text/plain; charset=UTF-8\\n\"\n");
    push_str(&mut out, "\"Language: ");
    push_str(&mut out, language);
    push_str(&mut out, "\\n\"\n\n");
    let ghost header = out@;
    assert(header =~= po_header(language@));
    let ghost kv = key_views(keys@);
    let mut i: usize = 0;
    while i < keys.len()
        invariant
            i <= keys@.len(),
            kv == key_views(keys@),
            header == po_header(language@),
            out@ == header + po_entries(entries@, kv.take(i as int), language@),
        decreases keys@.len() - i,
    {
        let ghost before = out@;
        let key = &keys[i];
        match &key.1 {
            Some(c) => {
                push_str(&mut out, "msgctxt ");
                push_json(&mut out, c.as_str());
                push_str(&mut out, "\n");
            },
            None => {},
        }
        push_str(&mut out, "msgid ");
        push_json(&mut out, key.0.as_str());
        push_str(&mut out, "\n");
        push_str(&mut out, "msgstr ");
        let t = translated_text(entries, key, language);
        let ts = string_of(&t);
        push_json(&mut out, ts.as_str());
        push_str(&mut out, "\n\n");
        proof {
            assert(kv[i as int] == key_view(*key));
            assert(out@ =~= before + po_entry(entries@, kv[i as int], language@));
            assert(kv.take(i + 1).drop_last() =~= kv.take(i as int));
            assert(kv.take(i + 1).last() == kv[i as int]);
        }
        i = i + 1;
    }
    assert(kv.take(kv.len() as int) =~= kv);
    string_of(&out)
}

/// The translation files of the program, one per language but the first,
/// each with the language's name; none where the program has no
/// translations. A file lists the texts the program uses, and every known
/// text where the program keeps unused translations, sorted and each once.
pub fn translation_files(hir: &ResolvedProgram, translation_uses: &Vec<(String, Option<String>)>) -> (r:
    Vec<(String, String)>)
    ensures
        match hir.preprocessing.translations {
            None => r@.len() == 0,
            Some(t) => exists|sorted: Seq<Key>|
                {
                    &&& sorted_unique(
                        sorted,
                        #[trigger] listed_keys(
                            translation_uses@,
                            t.entries@,
                            directive_names(hir.preprocessing.directives@).contains(
                                "keepUnusedTranslations"@,
                            ),
                        ),
                    )
                    &&& r@.len() == if t.languages@.len() > 0 {
                        t.languages@.len() - 1
                    } else {
                        0
                    }
                    &&& forall|i: int|
                        0 <= i < r@.len() ==> (#[trigger] r@[i]).0@ == t.languages@[i + 1]@ && r@[i].1@
                            == po_file(t.entries@, sorted, t.languages@[i + 1]@)
                },
        },
{
    let translations = match &hir.preprocessing.translations {
        None => return Vec::new(),
        Some(t) => t,
    };
    let keep_unused = has_directive(hir, "keepUnusedTranslations");
    let mut keys: Vec<(String, Option<String>)> = Vec::new();
    let mut i: usize = 0;
    while i < translation_uses.len()
        invariant
            i <= translation_uses@.len(),
            keys@.len() == i,
            key_views(keys@) == use_keys(translation_uses@.take(i as int)),
        decreases translation_uses@.len() - i,
    {
        let k = copy_key(&translation_uses[i]);
        let ghost before = key_views(keys@);
        keys.push(k);
        assert(key_views(keys@) =~= use_keys(translation_uses@.take(i + 1))) by {
            assert forall|q: int| 0 <= q < i + 1 implies key_views(keys@)[q] == use_keys(
                translation_uses@.take(i + 1),
            )[q] by {
                if q < i {
                    assert(key_views(keys@)[q] == before[q]);
                }
            }
        }
        i = i + 1;
    }
    assert(translation_uses@.take(translation_uses@.len() as int) =~= translation_uses@);
    let ghost used = key_views(keys@);
    let entries = &translations.entries;
    if keep_unused {
        let mut j: usize = 0;
        while j < entries.len()
            invariant
                j <= entries@.len(),
                key_views(keys@) == used + entries@.take(j as int).map_values(
                    |e: TranslationEntry| entry_key(e),
                ),
            decreases entries@.len() - j,
        {
            let k = (entries[j].msgid.clone(), match &entries[j].context {
                Some(c) => Some(c.clone()),
                None => None,
            });
            assert(key_view(k) == entry_key(entries@[j as int]));
            let ghost before = key_views(keys@);
            keys.push(k);
            assert(key_views(keys@) =~= used + entries@.take(j + 1).map_values(
                |e: TranslationEntry| entry_key(e),
            )) by {
                let m = entries@.take(j + 1).map_values(|e: TranslationEntry| entry_key(e));
                assert forall|q: int| 0 <= q < key_views(keys@).len() implies key_views(keys@)[q] == (
                used + m)[q] by {
                    if q < before.len() {
                        assert(key_views(keys@)[q] == before[q]);
                    }
                }
            }
            j = j + 1;
        }
        assert(entries@.take(entries@.len() as int) =~= entries@);
    }
    assert(key_views(keys@) =~= listed_keys(translation_uses@, entries@, keep_unused));
    let sorted = sorted_keys(&keys);
    let ghost sv = key_views(sorted@);
    let languages = &translations.languages;
    let mut files: Vec<(String, String)> = Vec::new();
    let mut l: usize = 1;
    while l < languages.len()
        invariant
            1 <= l,
            l <= languages@.len() || l == 1,
            sv == key_views(sorted@),
            files@.len() == l - 1,
            forall|i: int|
                0 <= i < files@.len() ==> (#[trigger] files@[i]).0@ == languages@[i + 1]@
                    && files@[i].1@ == po_file(entries@, sv, languages@[i + 1]@),
        decreases languages@.len() - l,
    {
        let text = po_file_text(entries, &sorted, languages[l].as_str());
        files.push((languages[l].clone(), text));
        l = l + 1;
    }
    assert(hir.preprocessing.translations == Some(*translations));
    assert(sorted_unique(sv, listed_keys(translation_uses@, entries@, keep_unused)));
    assert(files@.len() == if languages@.len() > 0 {
        languages@.len() - 1
    } else {
        0
    });
    assert(forall|i: int|
        0 <= i < files@.len() ==> (#[trigger] files@[i]).0@ == languages@[i + 1]@ && files@[i].1@
            == po_file(entries@, sv, languages@[i + 1]@));
    files
}

} // verus!
verus! {

/// Two sorted lists of the same keys, each key once, are the same list.
pub proof fn lemma_sorted_keys_unique(o1: Seq<Key>, o2: Seq<Key>, keys: Seq<Key>)
    requires
        sorted_unique(o1, keys),
        sorted_unique(o2, keys),
    ensures
        o1 == o2,
{
    lemma_sorted_prefix(o1, o2, keys, o1.len() as int);
    lemma_sorted_prefix(o2, o1, keys, o2.len() as int);
    if o1.len() < o2.len() {
        let b = o2[o1.len() as int];
        assert(keys.contains(b));
        assert(o1.contains(b));
        let q = choose|q: int| 0 <= q < o1.len() && #[trigger] o1[q] == b;
        assert(o2[q] == b);
        lemma_key_order(b, b, b);
    } else if o2.len() < o1.len() {
        let b = o1[o2.len() as int];
        assert(keys.contains(b));
        assert(o2.contains(b));
        let q = choose|q: int| 0 <= q < o2.len() && #[trigger] o2[q] == b;
        assert(o1[q] == b);
        lemma_key_order(b, b, b);
    }
    assert(o1 =~= o2);
}

/// Two sorted lists of the same keys agree on their first `p` entries.
proof fn lemma_sorted_prefix(o1: Seq<Key>, o2: Seq<Key>, keys: Seq<Key>, p: int)
    requires
        sorted_unique(o1, keys),
        sorted_unique(o2, keys),
        0 <= p <= o1.len(),
    ensures
        forall|k: int| 0 <= k < p && k < o2.len() ==> o1[k] == o2[k],
    decreases p,
{
    if p > 0 {
        lemma_sorted_prefix(o1, o2, keys, p - 1);
        let k = p - 1;
        if k < o2.len() && o1[k] != o2[k] {
            let a = o1[k];
            let b = o2[k];
            assert(keys.contains(b));
            assert(o1.contains(b));
            let q = choose|q: int| 0 <= q < o1.len() && #[trigger] o1[q] == b;
            assert(keys.contains(a));
            assert(o2.contains(a));
            let r = choose|r: int| 0 <= r < o2.len() && #[trigger] o2[r] == a;
            lemma_key_order(a, b, a);
            lemma_key_order(b, b, b);
            lemma_key_order(a, a, a);
            if q < k {
                assert(o2[q] == b);
                assert(key_less(o2[q], o2[k]));
            }
            if r < k {
                assert(o1[r] == a);
                assert(key_less(o1[r], o1[k]));
            }
            assert(key_less(o1[k], o1[q]));
            assert(key_less(o2[k], o2[r]));
        }
    }
}

} // verus!
