//! Text rewrites applied while lowering OPY to Workshop.
use vstd::prelude::*;
use crate::strings::{starts_with, chars_of, decimal, decimal_chars, push_chars, push_str, replace_all, replace_chars, str_eq, string_of};

verus! {

/// The comparison that holds exactly when `op` does not.
pub open spec fn negated_comparison_spec(op: Seq<char>) -> Option<Seq<char>> {
    if op == "=="@ {
        Some("!="@)
    } else if op == "!="@ {
        Some("=="@)
    } else if op == "<"@ {
        Some(">="@)
    } else if op == ">"@ {
        Some("<="@)
    } else if op == "<="@ {
        Some(">"@)
    } else if op == ">="@ {
        Some("<"@)
    } else {
        None
    }
}

/// The comparison that holds exactly when `op` does not.
pub fn negated_comparison(op: &str) -> (r: Option<&'static str>)
    ensures
        r matches Some(s) ==> negated_comparison_spec(op@) == Some(s@),
        r is None ==> negated_comparison_spec(op@) is None,
{
    if str_eq(op, "==") {
        Some("!=")
    } else if str_eq(op, "!=") {
        Some("==")
    } else if str_eq(op, "<") {
        Some(">=")
    } else if str_eq(op, ">") {
        Some("<=")
    } else if str_eq(op, "<=") {
        Some(">")
    } else if str_eq(op, ">=") {
        Some("<")
    } else {
        None
    }
}

/// Negating a comparison twice gives the comparison back.
pub proof fn lemma_negated_comparison_involutive(op: Seq<char>)
    requires
        negated_comparison_spec(op) is Some,
    ensures
        negated_comparison_spec(negated_comparison_spec(op).unwrap()) == Some(op),
{
    reveal_strlit("==");
    reveal_strlit("!=");
    reveal_strlit("<");
    reveal_strlit(">");
    reveal_strlit("<=");
    reveal_strlit(">=");
    assert("=="@.len() == 2 && "!="@.len() == 2 && "<="@.len() == 2 && ">="@.len() == 2);
    assert("<"@.len() == 1 && ">"@.len() == 1);
    assert("=="@[0] == '=' && "!="@[0] == '!' && "<="@[0] == '<' && ">="@[0] == '>');
    assert("=="@ != "!="@ && "=="@ != "<="@ && "=="@ != ">="@);
    assert("!="@ != "<="@ && "!="@ != ">="@ && "<="@ != ">="@);
    assert("<"@[0] == '<' && ">"@[0] == '>');
    assert("<"@ != ">"@);
}

/// The Workshop operation an augmented assignment operator stands for.
pub open spec fn modify_catalog_name_spec(op: Seq<char>) -> Option<Seq<char>> {
    if op == "+"@ {
        Some("add"@)
    } else if op == "-"@ {
        Some("subtract"@)
    } else if op == "*"@ {
        Some("multiply"@)
    } else if op == "/"@ {
        Some("divide"@)
    } else if op == "%"@ {
        Some("modulo"@)
    } else if op == "**"@ {
        Some("raiseToPower"@)
    } else {
        None
    }
}

/// The Workshop operation an augmented assignment operator stands for.
pub fn modify_catalog_name_from_str(op: &str) -> (r: Option<&'static str>)
    ensures
        r matches Some(s) ==> modify_catalog_name_spec(op@) == Some(s@),
        r is None ==> modify_catalog_name_spec(op@) is None,
{
    if str_eq(op, "+") {
        Some("add")
    } else if str_eq(op, "-") {
        Some("subtract")
    } else if str_eq(op, "*") {
        Some("multiply")
    } else if str_eq(op, "/") {
        Some("divide")
    } else if str_eq(op, "%") {
        Some("modulo")
    } else if str_eq(op, "**") {
        Some("raiseToPower")
    } else {
        None
    }
}

/// The look-alike that replaces a lowercase ASCII letter, so that the
/// Workshop client does not change the letter's case.
pub open spec fn cased_char(c: char) -> char {
    if c == 'a' { '\u{1ea1}' }
    else if c == 'b' { '\u{1e05}' }
    else if c == 'c' { '\u{0188}' }
    else if c == 'd' { '\u{1e0d}' }
    else if c == 'e' { '\u{1eb9}' }
    else if c == 'f' { '\u{0192}' }
    else if c == 'g' { '\u{01e5}' }
    else if c == 'h' { '\u{04bb}' }
    else if c == 'i' { '\u{0456}' }
    else if c == 'j' { '\u{0458}' }
    else if c == 'k' { '\u{1e33}' }
    else if c == 'l' { 'I' }
    else if c == 'm' { '\u{1e43}' }
    else if c == 'n' { '\u{1e47}' }
    else if c == 'o' { '\u{03bf}' }
    else if c == 'p' { '\u{1e57}' }
    else if c == 'q' { '\u{01eb}' }
    else if c == 'r' { '\u{1e5b}' }
    else if c == 's' { '\u{0455}' }
    else if c == 't' { '\u{1e6d}' }
    else if c == 'u' { '\u{03c5}' }
    else if c == 'v' { '\u{03bd}' }
    else if c == 'w' { '\u{1e89}' }
    else if c == 'x' { '\u{04b3}' }
    else if c == 'y' { '\u{1ef5}' }
    else if c == 'z' { '\u{1e93}' }
    else { c }
}

fn cased(c: char) -> (r: char)
    ensures
        r == cased_char(c),
{
    if c == 'a' { '\u{1ea1}' }
    else if c == 'b' { '\u{1e05}' }
    else if c == 'c' { '\u{0188}' }
    else if c == 'd' { '\u{1e0d}' }
    else if c == 'e' { '\u{1eb9}' }
    else if c == 'f' { '\u{0192}' }
    else if c == 'g' { '\u{01e5}' }
    else if c == 'h' { '\u{04bb}' }
    else if c == 'i' { '\u{0456}' }
    else if c == 'j' { '\u{0458}' }
    else if c == 'k' { '\u{1e33}' }
    else if c == 'l' { 'I' }
    else if c == 'm' { '\u{1e43}' }
    else if c == 'n' { '\u{1e47}' }
    else if c == 'o' { '\u{03bf}' }
    else if c == 'p' { '\u{1e57}' }
    else if c == 'q' { '\u{01eb}' }
    else if c == 'r' { '\u{1e5b}' }
    else if c == 's' { '\u{0455}' }
    else if c == 't' { '\u{1e6d}' }
    else if c == 'u' { '\u{03c5}' }
    else if c == 'v' { '\u{03bd}' }
    else if c == 'w' { '\u{1e89}' }
    else if c == 'x' { '\u{04b3}' }
    else if c == 'y' { '\u{1ef5}' }
    else if c == 'z' { '\u{1e93}' }
    else { c }
}

/// Every character of `s` mapped by `cased_char`.
fn cased_chars(s: &Vec<char>) -> (r: Vec<char>)
    ensures
        r@ == s@.map_values(|c: char| cased_char(c)),
{
    let mut r: Vec<char> = Vec::new();
    let mut i: usize = 0;
    while i < s.len()
        invariant
            0 <= i <= s@.len(),
            r@ == s@.take(i as int).map_values(|c: char| cased_char(c)),
        decreases s@.len() - i,
    {
        r.push(cased(s[i]));
        i = i + 1;
        assert(r@ =~= s@.take(i as int).map_values(|c: char| cased_char(c)));
    }
    assert(s@.take(s@.len() as int) =~= s@);
    r
}

/// Debug text with every lowercase ASCII letter replaced by its look-alike.
pub fn canonical_debug_text(text: &str) -> (r: String)
    ensures
        r@ == text@.map_values(|c: char| cased_char(c)),
{
    string_of(&cased_chars(&chars_of(text)))
}

/// The `æ`, `nj` and ` a ` rewrites made before the letters are mapped.
pub open spec fn case_sensitive_ligatures(s: Seq<char>) -> Seq<char> {
    let s1 = replace_all(s, seq!['\u{00e6}'], seq!['\u{04d5}']);
    let s2 = replace_all(s1, seq!['n', 'j'], seq!['\u{01cc}']);
    replace_all(s2, seq![' ', 'a', ' '], seq!['\u{202f}', '\u{ff41}', '\u{202f}'])
}

/// Text whose lowercase letters keep their case in the Workshop client.
pub open spec fn case_sensitive_spec(s: Seq<char>) -> Seq<char> {
    case_sensitive_ligatures(s).map_values(|c: char| cased_char(c))
}

fn chars3(a: char, b: char, c: char) -> (r: Vec<char>)
    ensures
        r@ == seq![a, b, c],
{
    let mut v = Vec::new();
    v.push(a);
    v.push(b);
    v.push(c);
    assert(v@ =~= seq![a, b, c]);
    v
}

fn chars2(a: char, b: char) -> (r: Vec<char>)
    ensures
        r@ == seq![a, b],
{
    let mut v = Vec::new();
    v.push(a);
    v.push(b);
    assert(v@ =~= seq![a, b]);
    v
}

fn chars1(a: char) -> (r: Vec<char>)
    ensures
        r@ == seq![a],
{
    let mut v = Vec::new();
    v.push(a);
    assert(v@ =~= seq![a]);
    v
}

/// Rewrite text so that the Workshop client keeps its lowercase letters.
pub fn case_sensitive(value: &str) -> (r: String)
    ensures
        r@ == case_sensitive_spec(value@),
{
    let s = chars_of(value);
    let s1 = replace_chars(&s, &chars1('\u{00e6}'), &chars1('\u{04d5}'));
    let s2 = replace_chars(&s1, &chars2('n', 'j'), &chars1('\u{01cc}'));
    let s3 = replace_chars(
        &s2,
        &chars3(' ', 'a', ' '),
        &chars3('\u{202f}', '\u{ff41}', '\u{202f}'),
    );
    string_of(&cased_chars(&s3))
}

/// The fullwidth form of a character, where the Workshop has one.
pub open spec fn fullwidth_char(c: char) -> char {
    if c == ' ' { '\u{2001}' }
    else if c == '\u{00a5}' { '\u{ffe5}' }
    else if c == '\u{20a9}' { '\u{ffe6}' }
    else if c == '\u{00a2}' { '\u{ffe0}' }
    else if c == '\u{00a3}' { '\u{ffe1}' }
    else if c == '\u{00af}' { '\u{ffe3}' }
    else if c == '\u{00ac}' { '\u{ffe2}' }
    else if c == '\u{00a6}' { '\u{ffe4}' }
    else if '!' <= c && c <= '~' { (c as int + 65248) as char }
    else { c }
}

/// Whether `i` is a Unicode scalar value.
pub open spec fn is_scalar_value(i: u32) -> bool {
    i <= 0xd7ff || (0xe000 <= i && i <= 0x10ffff)
}

/// `char::from_u32` returns the character with the given code when the code
/// is a Unicode scalar value, and `None` otherwise, as its documentation states.
pub assume_specification[ core::char::from_u32 ](i: u32) -> (r: Option<char>)
    ensures
        r == if is_scalar_value(i) { Some(i as char) } else { None },
;

fn fullwidth_one(c: char) -> (r: char)
    ensures
        r == fullwidth_char(c),
{
    if c == ' ' { '\u{2001}' }
    else if c == '\u{00a5}' { '\u{ffe5}' }
    else if c == '\u{20a9}' { '\u{ffe6}' }
    else if c == '\u{00a2}' { '\u{ffe0}' }
    else if c == '\u{00a3}' { '\u{ffe1}' }
    else if c == '\u{00af}' { '\u{ffe3}' }
    else if c == '\u{00ac}' { '\u{ffe2}' }
    else if c == '\u{00a6}' { '\u{ffe4}' }
    else if '!' <= c && c <= '~' {
        match core::char::from_u32(c as u32 + 65248) {
            Some(wide) => wide,
            None => c,
        }
    }
    else { c }
}

/// Fullwidth law: every printable ASCII character from `!` to `~` becomes
/// the character 0xFEE0 code points above it, so the text keeps its length
/// and each such character moves to the fullwidth block.
pub proof fn lemma_fullwidth_shifts_printable_ascii(text: Seq<char>)
    ensures
        forall|c: char| '!' <= c && c <= '~' ==> (#[trigger] fullwidth_char(c)) as int == c as int + 0xFEE0,
        text.map_values(|c: char| fullwidth_char(c)).len() == text.len(),
        forall|i: int|
            #![trigger text[i]]
            0 <= i < text.len() && '!' <= text[i] && text[i] <= '~' ==> (text.map_values(
                |c: char| fullwidth_char(c),
            )[i]) as int == text[i] as int + 0xFEE0,
{
    assert forall|c: char| '!' <= c && c <= '~' implies (#[trigger] fullwidth_char(c)) as int == c as int
        + 0xFEE0 by {
        assert(c != ' ' && c != '\u{00a5}' && c != '\u{20a9}' && c != '\u{00a2}' && c != '\u{00a3}'
            && c != '\u{00af}' && c != '\u{00ac}' && c != '\u{00a6}');
        assert(fullwidth_char(c) == (c as int + 65248) as char);
    }
}

/// Text in fullwidth characters.
pub fn fullwidth(value: &str) -> (r: String)
    ensures
        r@ == value@.map_values(|c: char| fullwidth_char(c)),
{
    let s = chars_of(value);
    let mut r: Vec<char> = Vec::new();
    let mut i: usize = 0;
    while i < s.len()
        invariant
            0 <= i <= s@.len(),
            r@ == s@.take(i as int).map_values(|c: char| fullwidth_char(c)),
        decreases s@.len() - i,
    {
        r.push(fullwidth_one(s[i]));
        i = i + 1;
        assert(r@ =~= s@.take(i as int).map_values(|c: char| fullwidth_char(c)));
    }
    assert(s@.take(s@.len() as int) =~= s@);
    string_of(&r)
}

/// The large Greek look-alike of a Latin letter, or the wide form of `.`
/// and ` `, where there is one.
pub open spec fn big_letter_spec(c: char) -> Option<char> {
    if c == 'a' || c == 'A' { Some('\u{0391}') }
    else if c == 'b' || c == 'B' { Some('\u{0392}') }
    else if c == 'e' || c == 'E' { Some('\u{0395}') }
    else if c == 'h' || c == 'H' { Some('\u{0397}') }
    else if c == 'i' || c == 'I' { Some('\u{0399}') }
    else if c == 'k' || c == 'K' { Some('\u{039a}') }
    else if c == 'm' || c == 'M' { Some('\u{039c}') }
    else if c == 'n' || c == 'N' { Some('\u{039d}') }
    else if c == 'o' || c == 'O' { Some('\u{039f}') }
    else if c == 'p' || c == 'P' { Some('\u{03a1}') }
    else if c == 't' || c == 'T' { Some('\u{03a4}') }
    else if c == 'x' || c == 'X' { Some('\u{03a7}') }
    else if c == 'y' || c == 'Y' { Some('\u{03a5}') }
    else if c == 'z' || c == 'Z' { Some('\u{0396}') }
    else if c == '.' { Some('\u{2024}') }
    else if c == ' ' { Some('\u{2028}') }
    else { None }
}

/// The look-alike that makes a character render large, if there is one.
pub fn big_letter(character: char) -> (r: Option<char>)
    ensures
        r == big_letter_spec(character),
{
    let c = character;
    if c == 'a' || c == 'A' { Some('\u{0391}') }
    else if c == 'b' || c == 'B' { Some('\u{0392}') }
    else if c == 'e' || c == 'E' { Some('\u{0395}') }
    else if c == 'h' || c == 'H' { Some('\u{0397}') }
    else if c == 'i' || c == 'I' { Some('\u{0399}') }
    else if c == 'k' || c == 'K' { Some('\u{039a}') }
    else if c == 'm' || c == 'M' { Some('\u{039c}') }
    else if c == 'n' || c == 'N' { Some('\u{039d}') }
    else if c == 'o' || c == 'O' { Some('\u{039f}') }
    else if c == 'p' || c == 'P' { Some('\u{03a1}') }
    else if c == 't' || c == 'T' { Some('\u{03a4}') }
    else if c == 'x' || c == 'X' { Some('\u{03a7}') }
    else if c == 'y' || c == 'Y' { Some('\u{03a5}') }
    else if c == 'z' || c == 'Z' { Some('\u{0396}') }
    else if c == '.' { Some('\u{2024}') }
    else if c == ' ' { Some('\u{2028}') }
    else { None }
}

/// Whether none of the characters of `s` has a large look-alike.
pub open spec fn no_big_letter(s: Seq<char>) -> bool {
    forall|i: int| 0 <= i < s.len() ==> big_letter_spec(#[trigger] s[i]) is None
}

/// `s` with its first character that has a large look-alike replaced by it.
pub open spec fn big_letters_spec(s: Seq<char>) -> Seq<char>
    decreases s.len(),
{
    if s.len() == 0 {
        s
    } else {
        match big_letter_spec(s[0]) {
            Some(big) => seq![big] + s.skip(1),
            None => seq![s[0]] + big_letters_spec(s.skip(1)),
        }
    }
}

/// Text whose first convertible character renders large.
pub fn big_letters(value: &str) -> (r: String)
    ensures
        r@ == big_letters_spec(value@),
{
    let s = chars_of(value);
    let mut output: Vec<char> = Vec::new();
    let mut converted = false;
    let mut i: usize = 0;
    assert(s@.skip(0) =~= s@);
    while i < s.len()
        invariant
            0 <= i <= s@.len(),
            !converted ==> big_letters_spec(s@) == output@ + big_letters_spec(s@.skip(i as int)),
            converted ==> big_letters_spec(s@) == output@ + s@.skip(i as int),
        decreases s@.len() - i,
    {
        let character = s[i];
        let ghost before = output@;
        assert(s@.skip(i as int).skip(1) =~= s@.skip(i + 1));
        assert(s@.skip(i as int)[0] == character);
        if !converted {
            match big_letter(character) {
                Some(mapped) => {
                    output.push(mapped);
                    converted = true;
                    assert(before + (seq![mapped] + s@.skip(i + 1)) =~= output@ + s@.skip(i + 1));
                    i = i + 1;
                    continue;
                },
                None => {},
            }
            output.push(character);
            assert(before + (seq![character] + big_letters_spec(s@.skip(i + 1))) =~= output@
                + big_letters_spec(s@.skip(i + 1)));
        } else {
            output.push(character);
            assert(before + s@.skip(i as int) =~= output@ + s@.skip(i + 1));
        }
        i = i + 1;
    }
    assert(s@.skip(s@.len() as int) =~= Seq::<char>::empty());
    assert(output@ + Seq::<char>::empty() =~= output@);
    string_of(&output)
}

/// The characters of the alphabet that compressed strings are written in:
/// the codes 1 to 47, 50, 58 to 64, 81, 91 to 96, 113, 124 to 159 and 161.
pub open spec fn in_compression_alphabet(code: int) -> bool {
    ||| 1 <= code <= 47
    ||| code == 50
    ||| 58 <= code <= 64
    ||| code == 81
    ||| 91 <= code <= 96
    ||| code == 113
    ||| 124 <= code <= 159
    ||| code == 161
}

/// The compression alphabet, in ascending order of code.
pub open spec fn compression_alphabet_spec() -> Seq<char> {
    Seq::new(162, |i: int| i as char).filter(|c: char| in_compression_alphabet(c as int))
}

/// How many codes below `code` are in the compression alphabet.
pub open spec fn alphabet_codes_below(code: int) -> int {
    if code <= 1 {
        0
    } else if code <= 48 {
        code - 1
    } else if code <= 50 {
        47
    } else if code <= 58 {
        48
    } else if code <= 65 {
        48 + (code - 58)
    } else if code <= 81 {
        55
    } else if code <= 91 {
        56
    } else if code <= 97 {
        56 + (code - 91)
    } else if code <= 113 {
        62
    } else if code <= 124 {
        63
    } else if code <= 160 {
        63 + (code - 124)
    } else if code <= 161 {
        99
    } else {
        100
    }
}

/// The characters of the compression alphabet, in ascending order; there
/// are a hundred of them.
pub fn compression_alphabet_chars() -> (r: Vec<char>)
    ensures
        r@ == compression_alphabet_spec(),
        r@.len() == 100,
{
    let mut r: Vec<char> = Vec::new();
    let mut code: u8 = 0;
    let ghost all = Seq::new(162, |i: int| i as char);
    let ghost keep = |c: char| in_compression_alphabet(c as int);
    while code < 162
        invariant
            0 <= code <= 162,
            all == Seq::new(162, |i: int| i as char),
            keep == (|c: char| in_compression_alphabet(c as int)),
            r@ == all.take(code as int).filter(keep),
            r@.len() == alphabet_codes_below(code as int),
        decreases 162 - code,
    {
        assert(all.take(code + 1).drop_last() =~= all.take(code as int));
        assert(all.take(code + 1).last() == (code as char));
        reveal_with_fuel(Seq::<_>::filter, 1);
        let c = code as char;
        if (1 <= code && code <= 47) || code == 50 || (58 <= code && code <= 64) || code == 81
            || (91 <= code && code <= 96) || code == 113 || (124 <= code && code <= 159) || code
            == 161 {
            r.push(c);
        }
        code = code + 1;
    }
    assert(all.take(162) =~= all);
    r
}

/// The compression alphabet as a string.
pub fn compression_alphabet() -> (r: String)
    ensures
        r@ == compression_alphabet_spec(),
{
    string_of(&compression_alphabet_chars())
}

/// The spelling of the number that marks format argument `index`:
/// 1876650.25 plus the index.
pub open spec fn format_number_marker_spec(index: nat) -> Seq<char> {
    decimal(1876650 + index) + ".25"@
}

/// The marker number of format argument `index`, as the Workshop writes it.
/// The marker is only exact while it stays below 2^51, where a double still
/// holds its quarter.
pub fn format_number_marker(index: u64) -> (r: String)
    requires
        1876650 + index < 0x8_0000_0000_0000,
    ensures
        r@ == format_number_marker_spec(index as nat),
{
    let mut v = decimal_chars(1876650 + index);
    push_str(&mut v, ".25");
    string_of(&v)
}

/// The slot of an implicit player variable: the language index lives in the
/// last slot, the default names in theirs.
pub open spec fn implicit_player_index_spec(name: Seq<char>) -> u32 {
    if name == "__languageIndex__"@ {
        127
    } else {
        crate::hir::default_var_index_spec(name).unwrap()
    }
}

/// The slot of an implicit player variable.
pub fn implicit_player_index(name: &str) -> (r: u32)
    requires
        name@ == "__languageIndex__"@ || crate::hir::default_var_index_spec(name@) is Some,
    ensures
        r == implicit_player_index_spec(name@),
{
    if str_eq(name, "__languageIndex__") {
        127
    } else {
        match crate::hir::default_var_index(name) {
            Some(index) => index,
            None => 0,
        }
    }
}

/// Format text with each empty placeholder `{}` numbered `{0}`, `{1}`, ...
/// in order, from `n` on.
pub open spec fn canonical_format_from(s: Seq<char>, n: nat) -> Seq<char>
    decreases s.len(),
{
    if s.len() == 0 {
        s
    } else if s.len() >= 2 && s[0] == '{' && s[1] == '}' {
        seq!['{'] + decimal(n) + seq!['}'] + canonical_format_from(s.skip(2), n + 1)
    } else {
        seq![s[0]] + canonical_format_from(s.skip(1), n)
    }
}

/// Format text with its empty placeholders numbered in order.
pub fn canonical_format_text(text: &str) -> (r: String)
    ensures
        r@ == canonical_format_from(text@, 0),
{
    let s = chars_of(text);
    let mut output: Vec<char> = Vec::new();
    let mut index: u64 = 0;
    let mut i: usize = 0;
    assert(s@.skip(0) =~= s@);
    while i < s.len()
        invariant
            0 <= i <= s@.len(),
            index <= i,
            canonical_format_from(s@, 0) == output@ + canonical_format_from(s@.skip(i as int), index as nat),
        decreases s@.len() - i,
    {
        let ghost before = output@;
        let ghost rest = s@.skip(i as int);
        if s[i] == '{' && i + 1 < s.len() && s[i + 1] == '}' {
            output.push('{');
            let digits = decimal_chars(index);
            push_chars(&mut output, &digits);
            output.push('}');
            assert(rest.skip(2) =~= s@.skip(i + 2));
            assert(before + (seq!['{'] + decimal(index as nat) + seq!['}'] + canonical_format_from(
                s@.skip(i + 2),
                index as nat + 1,
            )) =~= output@ + canonical_format_from(s@.skip(i + 2), index as nat + 1));
            index = index + 1;
            i = i + 2;
        } else {
            output.push(s[i]);
            assert(rest.skip(1) =~= s@.skip(i + 1));
            assert(before + (seq![s@[i as int]] + canonical_format_from(s@.skip(i + 1), index as nat))
                =~= output@ + canonical_format_from(s@.skip(i + 1), index as nat));
            i = i + 1;
        }
    }
    assert(s@.skip(s@.len() as int) =~= Seq::<char>::empty());
    assert(output@ + Seq::<char>::empty() =~= output@);
    string_of(&output)
}

/// Whether text shows a character outside its `{...}` placeholders, reading
/// from `depth` levels of open braces. A `}` without an open brace is shown.
pub open spec fn literal_text_from(s: Seq<char>, depth: nat) -> bool
    decreases s.len(),
{
    if s.len() == 0 {
        false
    } else if s[0] == '{' {
        literal_text_from(s.skip(1), depth + 1)
    } else if s[0] == '}' && depth > 0 {
        literal_text_from(s.skip(1), (depth - 1) as nat)
    } else if depth == 0 {
        true
    } else {
        literal_text_from(s.skip(1), depth)
    }
}

/// Whether a custom string shows any text besides its placeholders.
pub fn has_literal_text(text: &str) -> (r: bool)
    ensures
        r == literal_text_from(text@, 0),
{
    let s = chars_of(text);
    let mut depth: usize = 0;
    let mut i: usize = 0;
    assert(s@.skip(0) =~= s@);
    while i < s.len()
        invariant
            0 <= i <= s@.len(),
            depth <= i,
            s@ == text@,
            literal_text_from(s@, 0) == literal_text_from(s@.skip(i as int), depth as nat),
        decreases s@.len() - i,
    {
        assert(s@.skip(i as int).skip(1) =~= s@.skip(i + 1));
        let c = s[i];
        assert(s@.skip(i as int)[0] == c);
        if c == '{' {
            depth = depth + 1;
        } else if c == '}' && depth > 0 {
            depth = depth - 1;
        } else if depth == 0 {
            return true;
        }
        i = i + 1;
    }
    false
}

/// Whether a name is a valid OPY identifier: an ASCII letter or `_`, then
/// ASCII letters, digits and `_`.
pub open spec fn is_opy_identifier_spec(name: Seq<char>) -> bool {
    &&& name.len() > 0
    &&& (('a' <= name[0] && name[0] <= 'z') || ('A' <= name[0] && name[0] <= 'Z') || name[0] == '_')
    &&& forall|i: int|
        1 <= i < name.len() ==> {
            let c = #[trigger] name[i];
            ('a' <= c && c <= 'z') || ('A' <= c && c <= 'Z') || ('0' <= c && c <= '9') || c == '_'
        }
}

/// Whether a name is a valid OPY identifier.
pub fn is_opy_identifier(name: &str) -> (r: bool)
    ensures
        r == is_opy_identifier_spec(name@),
{
    let s = chars_of(name);
    if s.len() == 0 {
        return false;
    }
    let first = s[0];
    if !(('a' <= first && first <= 'z') || ('A' <= first && first <= 'Z') || first == '_') {
        return false;
    }
    let mut i: usize = 1;
    while i < s.len()
        invariant
            1 <= i <= s@.len(),
            s@ == name@,
            is_opy_identifier_spec(name@) <==> forall|j: int|
                i <= j < s@.len() ==> {
                    let c = #[trigger] s@[j];
                    ('a' <= c && c <= 'z') || ('A' <= c && c <= 'Z') || ('0' <= c && c <= '9') || c == '_'
                },
            forall|j: int|
                1 <= j < i ==> {
                    let c = #[trigger] s@[j];
                    ('a' <= c && c <= 'z') || ('A' <= c && c <= 'Z') || ('0' <= c && c <= '9') || c == '_'
                },
        decreases s@.len() - i,
    {
        let c = s[i];
        if !(('a' <= c && c <= 'z') || ('A' <= c && c <= 'Z') || ('0' <= c && c <= '9') || c == '_') {
            assert(s@[i as int] == c);
            return false;
        }
        i = i + 1;
    }
    true
}

/// The ASCII lowercase of a character; other characters stay.
pub open spec fn ascii_lower(c: char) -> char {
    if 'A' <= c && c <= 'Z' {
        ((c as int) + 32) as char
    } else {
        c
    }
}

pub(crate) fn lower(c: char) -> (r: char)
    ensures
        r == ascii_lower(c),
{
    if 'A' <= c && c <= 'Z' {
        match core::char::from_u32(c as u32 + 32) {
            Some(l) => l,
            None => c,
        }
    } else {
        c
    }
}

/// Whether two character sequences are equal up to ASCII case.
pub open spec fn eq_ignore_ascii_case(a: Seq<char>, b: Seq<char>) -> bool {
    a.len() == b.len() && forall|i: int| 0 <= i < a.len() ==> ascii_lower(#[trigger] a[i]) == ascii_lower(b[i])
}

/// Whether `p` occurs at position `i` of `s`, up to ASCII case.
fn matches_ignoring_case(s: &[char], i: usize, p: &str) -> (r: bool)
    requires
        i <= s@.len(),
    ensures
        r == (p@.len() <= s@.len() - i && eq_ignore_ascii_case(s@.subrange(i as int, i + p@.len()), p@)),
{
    let pat = chars_of(p);
    let n = s.len();
    if pat.len() > n - i {
        return false;
    }
    let mut k: usize = 0;
    while k < pat.len()
        invariant
            n == s@.len(),
            pat@ == p@,
            i + p@.len() <= s@.len(),
            0 <= k <= p@.len(),
            forall|j: int| 0 <= j < k ==> ascii_lower(s@[i + j]) == ascii_lower(p@[j]),
        decreases p@.len() - k,
    {
        if lower(s[i + k]) != lower(pat[k]) {
            assert(s@.subrange(i as int, i + p@.len())[k as int] == s@[i + k]);
            assert(ascii_lower(s@.subrange(i as int, i + p@.len())[k as int]) != ascii_lower(p@[k as int]));
            return false;
        }
        k = k + 1;
    }
    assert forall|j: int| 0 <= j < p@.len() implies ascii_lower(#[trigger] s@.subrange(i as int, i + p@.len())[j]) == ascii_lower(p@[j]) by {
        assert(s@.subrange(i as int, i + p@.len())[j] == s@[i + j]);
    }
    true
}

/// The position of the first `>` in `s`, if any.
pub open spec fn first_close_angle(s: Seq<char>) -> Option<int> {
    if exists|k: int| 0 <= k < s.len() && s[k] == '>' {
        Some(choose|k: int| 0 <= k < s.len() && s[k] == '>' && forall|j: int| 0 <= j < k ==> s[j] != '>')
    } else {
        None
    }
}

/// Whether text starts with `<fg` or `</fg>`, in any case.
pub open spec fn starts_color_tag(rest: Seq<char>) -> bool {
    (rest.len() >= 3 && eq_ignore_ascii_case(rest.take(3), "<fg"@))
        || (rest.len() >= 5 && eq_ignore_ascii_case(rest.take(5), "</fg>"@))
}

/// Where a color tag (`<fg...>` or `</fg>`, any case) that starts at `index`
/// ends: just after its `>`.
pub open spec fn cased_color_tag_end(text: Seq<char>, index: int) -> Option<int> {
    if !starts_color_tag(text.skip(index)) {
        None
    } else {
        match first_close_angle(text.skip(index)) {
            Some(k) => Some(index + k + 1),
            None => None,
        }
    }
}

/// The end of a color tag that starts at `index`, if one does.
pub fn is_cased_color_tag(text: &[char], index: usize) -> (r: Option<usize>)
    requires
        index <= text@.len(),
    ensures
        match cased_color_tag_end(text@, index as int) {
            Some(end) => r == Some(end as usize),
            None => r is None,
        },
{
    let ghost rest = text@.skip(index as int);
    let short = matches_ignoring_case(text, index, "<fg");
    let long = matches_ignoring_case(text, index, "</fg>");
    proof {
        reveal_strlit("<fg");
        reveal_strlit("</fg>");
        if index + 3 <= text@.len() {
            assert(text@.subrange(index as int, index + 3) =~= rest.take(3));
        }
        if index + 5 <= text@.len() {
            assert(text@.subrange(index as int, index + 5) =~= rest.take(5));
        }
    }
    if !short && !long {
        return None;
    }
    assert(starts_color_tag(rest));
    let n = text.len();
    let mut k: usize = index;
    while k < n
        invariant
            n == text@.len(),
            rest == text@.skip(index as int),
            starts_color_tag(rest),
            index <= k <= n,
            forall|j: int| index <= j < k ==> text@[j] != '>',
        decreases n - k,
    {
        if text[k] == '>' {
            proof {
                assert(rest[k - index] == '>');
                let f = first_close_angle(rest);
                assert(f is Some);
                let c = f.unwrap();
                if c < k - index {
                    assert(text@[index + c] != '>');
                }
                if c > k - index {
                    assert(rest[k - index] != '>');
                }
            }
            return Some(k + 1);
        }
        k = k + 1;
    }
    proof {
        if exists|m: int| 0 <= m < rest.len() && rest[m] == '>' {
            let m = choose|m: int| 0 <= m < rest.len() && rest[m] == '>';
            assert(text@[index + m] == '>');
        }
    }
    None
}

/// The first `code` codes hold as many characters of the alphabet as
/// `alphabet_codes_below` counts.
proof fn lemma_alphabet_codes_below(code: int)
    requires
        0 <= code <= 162,
    ensures
        Seq::new(162, |i: int| i as char).take(code).filter(|c: char| in_compression_alphabet(c as int)).len()
            == alphabet_codes_below(code),
    decreases code,
{
    let all = Seq::new(162, |i: int| i as char);
    let keep = |c: char| in_compression_alphabet(c as int);
    if code > 0 {
        lemma_alphabet_codes_below(code - 1);
        assert(all.take(code).drop_last() =~= all.take(code - 1));
        assert(all.take(code).last() == ((code - 1) as char));
        reveal_with_fuel(Seq::<_>::filter, 1);
    } else {
        assert(all.take(0) =~= Seq::<char>::empty());
        reveal_with_fuel(Seq::<_>::filter, 1);
    }
}

/// The compression alphabet has a hundred characters, and `0` is not one
/// of them.
pub proof fn lemma_compression_alphabet()
    ensures
        compression_alphabet_spec().len() == 100,
        forall|i: int| 0 <= i < 100 ==> #[trigger] compression_alphabet_spec()[i] != '0',
{
    let all = Seq::new(162, |i: int| i as char);
    let keep = |c: char| in_compression_alphabet(c as int);
    lemma_alphabet_codes_below(162);
    assert(all.take(162) =~= all);
    assert forall|i: int| 0 <= i < 100 implies #[trigger] compression_alphabet_spec()[i] != '0' by {
        all.lemma_filter_pred(keep, i);
    }
}


/// Whether `p` occurs somewhere in `s`.
pub open spec fn occurs_in(s: Seq<char>, p: Seq<char>) -> bool {
    exists|i: int| 0 <= i <= s.len() && #[trigger] starts_with(s.skip(i), p)
}

/// Replacing a piece that does not occur changes nothing.
proof fn lemma_replace_absent(s: Seq<char>, p: Seq<char>, r: Seq<char>)
    requires
        !occurs_in(s, p),
    ensures
        replace_all(s, p, r) == s,
    decreases s.len(),
{
    if s.len() > 0 {
        assert(s.skip(0) =~= s);
        assert(!starts_with(s.skip(0), p));
        let t = s.skip(1);
        assert forall|i: int| 0 <= i <= t.len() implies !#[trigger] starts_with(t.skip(i), p) by {
            assert(t.skip(i) =~= s.skip(i + 1));
            assert(!starts_with(s.skip(i + 1), p));
        }
        lemma_replace_absent(t, p, r);
        assert(seq![s[0]] + t =~= s);
    }
}

/// On text without `æ`, `nj` or ` a `, the debug spelling and the
/// case-sensitive spelling agree: both map each character alone.
pub proof fn lemma_debug_text_is_case_sensitive(text: Seq<char>)
    requires
        !occurs_in(text, seq!['\u{00e6}']),
        !occurs_in(text, seq!['n', 'j']),
        !occurs_in(text, seq![' ', 'a', ' ']),
    ensures
        case_sensitive_spec(text) == text.map_values(|c: char| cased_char(c)),
{
    lemma_replace_absent(text, seq!['\u{00e6}'], seq!['\u{04d5}']);
    lemma_replace_absent(text, seq!['n', 'j'], seq!['\u{01cc}']);
    lemma_replace_absent(text, seq![' ', 'a', ' '], seq!['\u{202f}', '\u{ff41}', '\u{202f}']);
}

} // verus!
