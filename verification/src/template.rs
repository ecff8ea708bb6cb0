//! Action templates: `{{name}}`, `${name}`, `$name` and their modifier and
//! escape forms, filled in from a notification's variables.
//!
//! A template is read as a sequence of tokens: characters still open to
//! substitution, and values already substituted. Each substitution pass
//! rewrites matches among the open characters only and leaves a value
//! token behind, so a substituted value is never read again by a later
//! pass and is never expanded a second time.
use vstd::prelude::*;
use crate::foreign::{
    regex_is_match, spec_regex_error, spec_regex_is_match, json_string, spec_json_string,
    json_parse_string_list, spec_json_parse_string_list,
};
use crate::strmap::{StringMap, Pairs, lookup, text_lt, text_less, pair_keys};
use crate::text::{
    chars_of, string_of, extend_chars, extend_str, concat, replace_char, replace_char_chars,
    parse_unsigned, parse_u64, join, join_chars, is_ascii_alpha, is_ascii_alnum,
    is_ascii_alpha_char, is_ascii_digit_char, chars_eq, views, char_at,
};

verus! {

/// A token of a template being filled in.
pub enum Tok {
    /// A character still open to substitution.
    Ch(char),
    /// A value already substituted.
    Val(Seq<char>),
}

/// The text a token stands for.
pub open spec fn tok_text(t: Tok) -> Seq<char> {
    match t {
        Tok::Ch(c) => seq![c],
        Tok::Val(v) => v,
    }
}

/// The text of a token sequence.
pub open spec fn render(t: Seq<Tok>) -> Seq<char>
    decreases t.len(),
{
    if t.len() == 0 {
        seq![]
    } else {
        render(t.drop_last()) + tok_text(t.last())
    }
}

/// The open token of a character.
pub open spec fn ch_tok(c: char) -> Tok {
    Tok::Ch(c)
}

/// The tokens of a plain template: every character open.
pub open spec fn open_toks(s: Seq<char>) -> Seq<Tok> {
    s.map_values(|c: char| ch_tok(c))
}

/// Token `i` of `t` is the open character `c`.
pub open spec fn ch_at(t: Seq<Tok>, i: int, c: char) -> bool {
    0 <= i < t.len() && t[i] == Tok::Ch(c)
}

/// The open characters of `s` stand in `t` from index `i` on.
pub open spec fn lit_at(t: Seq<Tok>, i: int, s: Seq<char>) -> bool {
    0 <= i && i + s.len() <= t.len() && forall|k: int| 0 <= k < s.len() ==> #[trigger] t[i + k]
        == Tok::Ch(s[k])
}

/// `\w` of the regex crate (Unicode word characters), as the crate decides it.
pub open spec fn is_word_char(c: char) -> bool {
    spec_regex_error("\\A\\w\\z"@) is None && spec_regex_is_match("\\A\\w\\z"@, seq![c])
}

/// `\d` of the regex crate (Unicode decimal digits), as the crate decides it.
pub open spec fn is_digit_char(c: char) -> bool {
    spec_regex_error("\\A\\d\\z"@) is None && spec_regex_is_match("\\A\\d\\z"@, seq![c])
}

/// The character classes the template syntax uses.
pub enum CharClass {
    /// `[^}]`
    NotCloseBrace,
    /// `\d`
    Digit,
    /// `[A-Za-z0-9_]`
    IdentRest,
}

pub open spec fn in_class(cls: CharClass, c: char) -> bool {
    match cls {
        CharClass::NotCloseBrace => c != '}',
        CharClass::Digit => is_digit_char(c),
        CharClass::IdentRest => is_ascii_alnum(c) || c == '_',
    }
}

/// Length of the longest run of open characters of class `cls` from `i`.
pub open spec fn run_len(t: Seq<Tok>, i: int, cls: CharClass) -> nat
    decreases t.len() - i,
{
    if 0 <= i < t.len() && (t[i] matches Tok::Ch(c) && in_class(cls, c)) {
        1 + run_len(t, i + 1, cls)
    } else {
        0
    }
}

/// The character of an open token.
pub open spec fn tok_char(t: Tok) -> char {
    match t {
        Tok::Ch(c) => c,
        Tok::Val(_) => '\0',
    }
}

/// The characters of the `n` tokens from `i`.
pub open spec fn run_text(t: Seq<Tok>, i: int, n: nat) -> Seq<char> {
    Seq::new(n, |k: int| tok_char(t[i + k]))
}

/// Token `j` is an open word character (so no word boundary before it).
pub open spec fn word_at(t: Seq<Tok>, j: int) -> bool {
    0 <= j < t.len() && (t[j] matches Tok::Ch(c) && is_word_char(c))
}

// ---------------------------------------------------------------------
// Values
// ---------------------------------------------------------------------

/// Name of the variable that keeps the extracted URLs as JSON.
pub open spec fn url_values_key() -> Seq<char> {
    "__noticeflow_url_values"@
}

/// The URLs stored in the variables (none when absent or unreadable).
pub open spec fn url_values(vars: Pairs) -> Seq<Seq<char>> {
    match lookup(vars, url_values_key()) {
        Some(text) => match spec_json_parse_string_list(text) {
            Some(urls) => urls,
            None => seq![],
        },
        None => seq![],
    }
}

/// The `index`-th URL (counting from 1), or nothing.
pub open spec fn dynamic_url_value(index: nat, vars: Pairs) -> Seq<char> {
    let urls = url_values(vars);
    if urls.len() == 0 || index == 0 || index > urls.len() {
        seq![]
    } else {
        urls[index - 1]
    }
}

/// The escapes a `urls_join` separator understands: `\n`, `\r`, `\t`,
/// `\\`; any other backslash stays as written.
pub open spec fn decode_separator(s: Seq<char>) -> Seq<char>
    decreases s.len(),
{
    if s.len() == 0 {
        seq![]
    } else if s[0] != '\\' {
        seq![s[0]] + decode_separator(s.drop_first())
    } else if s.len() == 1 {
        seq!['\\']
    } else {
        let e = s[1];
        (if e == 'n' {
            seq!['\n']
        } else if e == 'r' {
            seq!['\r']
        } else if e == 't' {
            seq!['\t']
        } else if e == '\\' {
            seq!['\\']
        } else {
            seq!['\\', e]
        }) + decode_separator(s.skip(2))
    }
}

/// A value quoted for a POSIX shell: wrapped in single quotes, each single
/// quote written as `'\''`.
pub open spec fn shell_quote(v: Seq<char>) -> Seq<char> {
    seq!['\''] + replace_char(v, '\'', seq!['\'', '\\', '\'', '\'']) + seq!['\'']
}

/// The value of a variable, or nothing.
pub open spec fn value_or_empty(vars: Pairs, name: Seq<char>) -> Seq<char> {
    match lookup(vars, name) {
        Some(v) => v,
        None => seq![],
    }
}

/// The number a `url_N` form names (`1` when the digits are no `usize`).
pub open spec fn url_index(digits: Seq<char>) -> nat {
    match parse_unsigned(digits, usize::MAX as nat) {
        Some(n) => n,
        None => 1,
    }
}

// ---------------------------------------------------------------------
// Substitution passes
// ---------------------------------------------------------------------

/// One rewriting pass over a template.
pub enum Pass {
    /// `$${...}` and `$$url_N`: left in the output with one `$` less.
    EscapedSpecial,
    /// `{{urls_join:SEP}}` and `${urls_join:SEP}`.
    UrlsJoin,
    /// `{{url_N}}`, `${url_N}` and `$url_N`.
    DynamicUrl,
    /// `{{json:name}}` and `${json:name}`.
    JsonValue,
    /// `{{shell:name}}` and `${shell:name}`.
    ShellValue,
    /// A fixed text and what replaces it.
    Literal(Seq<char>, Seq<char>),
}

/// A match of `{{PREFIX` + run of `cls` + `}}`-style closing.
pub open spec fn match_run_closed(
    t: Seq<Tok>,
    i: int,
    opening: Seq<char>,
    cls: CharClass,
    min: nat,
    close: Seq<char>,
) -> Option<nat> {
    if lit_at(t, i, opening) {
        let n = run_len(t, i + opening.len(), cls);
        if n >= min && lit_at(t, i + opening.len() + n, close) {
            Some(opening.len() + n + close.len())
        } else {
            None
        }
    } else {
        None
    }
}

/// A match of `PREFIX` + digits followed by a word boundary.
pub open spec fn match_digits_bounded(t: Seq<Tok>, i: int, opening: Seq<char>) -> Option<nat> {
    if lit_at(t, i, opening) {
        let n = run_len(t, i + opening.len(), CharClass::Digit);
        if n >= 1 && !word_at(t, i + opening.len() + n) {
            Some(opening.len() + n)
        } else {
            None
        }
    } else {
        None
    }
}

/// A match of `PREFIX` + identifier + closing.
pub open spec fn match_ident_closed(t: Seq<Tok>, i: int, opening: Seq<char>, close: Seq<char>) -> Option<
    nat,
> {
    let s = i + opening.len();
    if lit_at(t, i, opening) && 0 <= s < t.len() && (t[s] matches Tok::Ch(c) && (is_ascii_alpha(c)
        || c == '_')) {
        let n = 1 + run_len(t, s + 1, CharClass::IdentRest);
        if lit_at(t, s + n, close) {
            Some(opening.len() + n + close.len())
        } else {
            None
        }
    } else {
        None
    }
}

/// `$${...}` and `$$url_N`, left with one `$` less.
pub open spec fn match_escaped(t: Seq<Tok>, i: int) -> Option<(nat, Seq<char>)> {
    match match_run_closed(t, i, "$${"@, CharClass::NotCloseBrace, 1, "}"@) {
        Some(n) => Some((n, run_text(t, i + 1, (n - 1) as nat))),
        None => match match_digits_bounded(t, i, "$$url_"@) {
            Some(n) => Some((n, run_text(t, i + 1, (n - 1) as nat))),
            None => None,
        },
    }
}

/// A match of one of two forms, `o1 RUN c1` or `o2 RUN c2`, as its
/// length and the text of its run.
pub open spec fn match_two_forms(
    t: Seq<Tok>,
    i: int,
    o1: Seq<char>,
    c1: Seq<char>,
    o2: Seq<char>,
    c2: Seq<char>,
    cls: CharClass,
    min: nat,
) -> Option<(nat, Seq<char>)> {
    match match_run_closed(t, i, o1, cls, min, c1) {
        Some(n) => Some((n, run_text(t, i + o1.len(), (n - o1.len() - c1.len()) as nat))),
        None => match match_run_closed(t, i, o2, cls, min, c2) {
            Some(n) => Some((n, run_text(t, i + o2.len(), (n - o2.len() - c2.len()) as nat))),
            None => None,
        },
    }
}

/// `{{urls_join:SEP}}` and `${urls_join:SEP}`: the URLs joined by `SEP`.
pub open spec fn match_urls_join(vars: Pairs, t: Seq<Tok>, i: int) -> Option<(nat, Seq<char>)> {
    match match_two_forms(
        t,
        i,
        "{{urls_join:"@,
        "}}"@,
        "${urls_join:"@,
        "}"@,
        CharClass::NotCloseBrace,
        0,
    ) {
        Some((n, sep)) => Some((n, join(url_values(vars), decode_separator(sep)))),
        None => None,
    }
}

/// The digits of `{{url_N}}`, `${url_N}` or `$url_N`.
pub open spec fn match_url_digits(t: Seq<Tok>, i: int) -> Option<(nat, Seq<char>)> {
    match match_two_forms(t, i, "{{url_"@, "}}"@, "${url_"@, "}"@, CharClass::Digit, 1) {
        Some(m) => Some(m),
        None => match match_digits_bounded(t, i, "$url_"@) {
            Some(n) => Some((n, run_text(t, i + "$url_"@.len(), (n - "$url_"@.len()) as nat))),
            None => None,
        },
    }
}

/// `{{url_N}}`, `${url_N}` and `$url_N`: the `N`-th URL.
pub open spec fn match_dynamic_url(vars: Pairs, t: Seq<Tok>, i: int) -> Option<(nat, Seq<char>)> {
    match match_url_digits(t, i) {
        Some((n, digits)) => Some((n, dynamic_url_value(url_index(digits), vars))),
        None => None,
    }
}

/// The variable name of `PREFIX:name}}` or `${PREFIX:name}`.
pub open spec fn match_modifier_name(t: Seq<Tok>, i: int, o1: Seq<char>, o2: Seq<char>) -> Option<
    (nat, Seq<char>),
> {
    match match_ident_closed(t, i, o1, "}}"@) {
        Some(n) => Some((n, run_text(t, i + o1.len(), (n - o1.len() - "}}"@.len()) as nat))),
        None => match match_ident_closed(t, i, o2, "}"@) {
            Some(n) => Some((n, run_text(t, i + o2.len(), (n - o2.len() - "}"@.len()) as nat))),
            None => None,
        },
    }
}

/// `{{json:name}}` and `${json:name}`: the value as a JSON string.
pub open spec fn match_json(vars: Pairs, t: Seq<Tok>, i: int) -> Option<(nat, Seq<char>)> {
    match match_modifier_name(t, i, "{{json:"@, "${json:"@) {
        Some((n, name)) => Some((n, spec_json_string(value_or_empty(vars, name)))),
        None => None,
    }
}

/// `{{shell:name}}` and `${shell:name}`: the value quoted for a shell.
pub open spec fn match_shell(vars: Pairs, t: Seq<Tok>, i: int) -> Option<(nat, Seq<char>)> {
    match match_modifier_name(t, i, "{{shell:"@, "${shell:"@) {
        Some((n, name)) => Some((n, shell_quote(value_or_empty(vars, name)))),
        None => None,
    }
}

/// The match of `p` at token `i`, as its length and the value it leaves.
pub closed spec fn match_at(p: Pass, vars: Pairs, t: Seq<Tok>, i: int) -> Option<(nat, Seq<char>)> {
    match p {
        Pass::EscapedSpecial => match_escaped(t, i),
        Pass::UrlsJoin => match_urls_join(vars, t, i),
        Pass::DynamicUrl => match_dynamic_url(vars, t, i),
        Pass::JsonValue => match_json(vars, t, i),
        Pass::ShellValue => match_shell(vars, t, i),
        Pass::Literal(pat, rep) => if pat.len() > 0 && lit_at(t, i, pat) {
            Some((pat.len(), rep))
        } else {
            None
        },
    }
}

/// The pass `p` applied to the tokens from `i` on: leftmost matches, left
/// to right, none overlapping (as `Regex::replace_all` and `str::replace`).
pub open spec fn apply_from(p: Pass, vars: Pairs, t: Seq<Tok>, i: int) -> Seq<Tok>
    decreases t.len() - i,
{
    if i < 0 || i >= t.len() {
        seq![]
    } else {
        match match_at(p, vars, t, i) {
            Some((n, v)) => if n >= 1 && i + n <= t.len() {
                seq![Tok::Val(v)] + apply_from(p, vars, t, i + n)
            } else {
                seq![t[i]] + apply_from(p, vars, t, i + 1)
            },
            None => seq![t[i]] + apply_from(p, vars, t, i + 1),
        }
    }
}

pub open spec fn apply(p: Pass, vars: Pairs, t: Seq<Tok>) -> Seq<Tok> {
    apply_from(p, vars, t, 0)
}

// ---------------------------------------------------------------------
// Key order and the per-key passes
// ---------------------------------------------------------------------

/// Number of bytes UTF-8 takes for `c`.
pub open spec fn utf8_width(c: char) -> nat {
    let u = c as u32;
    if u < 0x80 {
        1
    } else if u < 0x800 {
        2
    } else if u < 0x10000 {
        3
    } else {
        4
    }
}

/// Length in UTF-8 bytes (`str::len`).
pub open spec fn utf8_len(s: Seq<char>) -> nat
    decreases s.len(),
{
    if s.len() == 0 {
        0
    } else {
        utf8_len(s.drop_last()) + utf8_width(s.last())
    }
}

/// Keys are substituted longest (in bytes) first, ties in ascending order.
pub open spec fn replace_before(a: Seq<char>, b: Seq<char>) -> bool {
    utf8_len(a) > utf8_len(b) || (utf8_len(a) == utf8_len(b) && text_lt(a, b))
}

/// `x` inserted into `s` before the first element it goes before.
pub open spec fn insert_in_order(x: Seq<char>, s: Seq<Seq<char>>) -> Seq<Seq<char>>
    decreases s.len(),
{
    if s.len() == 0 {
        seq![x]
    } else if replace_before(x, s[0]) {
        seq![x] + s
    } else {
        seq![s[0]] + insert_in_order(x, s.drop_first())
    }
}

/// `s` in substitution order.
pub open spec fn sort_for_replace(s: Seq<Seq<char>>) -> Seq<Seq<char>>
    decreases s.len(),
{
    if s.len() == 0 {
        seq![]
    } else {
        insert_in_order(s.last(), sort_for_replace(s.drop_last()))
    }
}

/// Internal keys (starting with `__`) take no part in substitution.
pub open spec fn is_internal_key(k: Seq<char>) -> bool {
    "__"@.is_prefix_of(k)
}

/// `$$key` and `$${key}` of each key, in order, left with one `$` less.
pub open spec fn escape_keys(keys: Seq<Seq<char>>, t: Seq<Tok>, vars: Pairs) -> Seq<Tok>
    decreases keys.len(),
{
    if keys.len() == 0 {
        t
    } else {
        let k = keys[0];
        let next = if is_internal_key(k) {
            t
        } else {
            let t1 = apply(Pass::Literal("$$"@ + k, "$"@ + k), vars, t);
            apply(Pass::Literal("$${"@ + k + "}"@, "${"@ + k + "}"@), vars, t1)
        };
        escape_keys(keys.drop_first(), next, vars)
    }
}

/// `{{key}}`, `${key}` and `$key` of each key, in order, replaced by its value.
pub open spec fn substitute_keys(keys: Seq<Seq<char>>, t: Seq<Tok>, vars: Pairs) -> Seq<Tok>
    decreases keys.len(),
{
    if keys.len() == 0 {
        t
    } else {
        let k = keys[0];
        let next = if is_internal_key(k) {
            t
        } else {
            let v = value_or_empty(vars, k);
            let t1 = apply(Pass::Literal("{{"@ + k + "}}"@, v), vars, t);
            let t2 = apply(Pass::Literal("${"@ + k + "}"@, v), vars, t1);
            apply(Pass::Literal("$"@ + k, v), vars, t2)
        };
        substitute_keys(keys.drop_first(), next, vars)
    }
}

/// The tokens of `template` after every pass, in order.
pub open spec fn template_tokens(template: Seq<char>, vars: Pairs) -> Seq<Tok> {
    let keys = sort_for_replace(pair_keys(vars));
    let t0 = open_toks(template);
    let t1 = apply(Pass::EscapedSpecial, vars, t0);
    let t2 = apply(Pass::UrlsJoin, vars, t1);
    let t3 = apply(Pass::DynamicUrl, vars, t2);
    let t4 = apply(Pass::JsonValue, vars, t3);
    let t5 = apply(Pass::ShellValue, vars, t4);
    let t6 = escape_keys(keys, t5, vars);
    substitute_keys(keys, t6, vars)
}

/// `template` with its variables filled in.
pub closed spec fn spec_replace_variables(template: Seq<char>, vars: Pairs) -> Seq<char> {
    render(template_tokens(template, vars))
}


/// The closed substitution is the text of the tokens after every pass.
pub(crate) proof fn lemma_replace_is_render(template: Seq<char>, vars: Pairs)
    ensures
        spec_replace_variables(template, vars) == render(template_tokens(template, vars)),
{
}

// ---------------------------------------------------------------------
// Executable side
// ---------------------------------------------------------------------

/// A token of a template being filled in.
pub enum Piece {
    Ch(char),
    Val(Vec<char>),
}

impl View for Piece {
    type V = Tok;

    open spec fn view(&self) -> Tok {
        match self {
            Piece::Ch(c) => Tok::Ch(*c),
            Piece::Val(v) => Tok::Val(v@),
        }
    }
}

pub open spec fn piece_tok(p: Piece) -> Tok {
    p@
}

pub open spec fn toks(ps: Seq<Piece>) -> Seq<Tok> {
    ps.map_values(|p: Piece| piece_tok(p))
}

/// The executable form of a pass.
pub enum PassExec {
    EscapedSpecial,
    UrlsJoin,
    DynamicUrl,
    JsonValue,
    ShellValue,
    Literal(Vec<char>, Vec<char>),
}

impl View for PassExec {
    type V = Pass;

    open spec fn view(&self) -> Pass {
        match self {
            PassExec::EscapedSpecial => Pass::EscapedSpecial,
            PassExec::UrlsJoin => Pass::UrlsJoin,
            PassExec::DynamicUrl => Pass::DynamicUrl,
            PassExec::JsonValue => Pass::JsonValue,
            PassExec::ShellValue => Pass::ShellValue,
            PassExec::Literal(a, b) => Pass::Literal(a@, b@),
        }
    }
}

fn open_pieces(s: &Vec<char>) -> (r: Vec<Piece>)
    ensures
        toks(r@) == open_toks(s@),
{
    let mut r: Vec<Piece> = Vec::new();
    let mut i: usize = 0;
    assert(toks(r@) =~= open_toks(s@.take(0)));
    while i < s.len()
        invariant
            i <= s.len(),
            r@.len() == i,
            toks(r@) == open_toks(s@.take(i as int)),
        decreases s.len() - i,
    {
        let ghost before = toks(r@);
        let ghost old_r = r@;
        let c = char_at(s, i);
        r.push(Piece::Ch(c));
        assert(r@ == old_r.push(Piece::Ch(s@[i as int])));
        assert(toks(r@)[i as int] == ch_tok(s@[i as int]));
        assert(toks(r@) =~= before.push(ch_tok(s@[i as int])));
        assert(open_toks(s@.take(i + 1)) =~= open_toks(s@.take(i as int)).push(ch_tok(s@[i as int])));
        i += 1;
    }
    assert(s@.take(s.len() as int) =~= s@);
    r
}

fn render_pieces(t: &Vec<Piece>) -> (r: Vec<char>)
    ensures
        r@ == render(toks(t@)),
{
    let mut r: Vec<char> = Vec::new();
    let mut i: usize = 0;
    while i < t.len()
        invariant
            i <= t.len(),
            r@ == render(toks(t@).take(i as int)),
        decreases t.len() - i,
    {
        assert(toks(t@).take(i + 1).drop_last() =~= toks(t@).take(i as int));
        match &t[i] {
            Piece::Ch(c) => {
                r.push(*c);
                assert(r@ =~= render(toks(t@).take(i as int)) + seq![*c]);
            },
            Piece::Val(v) => {
                extend_chars(&mut r, v);
            },
        }
        i += 1;
    }
    assert(toks(t@).take(t.len() as int) =~= toks(t@));
    r
}

fn ch_at_exec(t: &Vec<Piece>, i: usize, c: char) -> (r: bool)
    ensures
        r == ch_at(toks(t@), i as int, c),
{
    if i >= t.len() {
        return false;
    }
    match &t[i] {
        Piece::Ch(d) => *d == c,
        Piece::Val(_) => false,
    }
}

fn lit_at_exec(t: &Vec<Piece>, i: usize, s: &Vec<char>) -> (r: bool)
    ensures
        r == lit_at(toks(t@), i as int, s@),
        r ==> i + s@.len() <= t@.len(),
{
    if i > t.len() || s.len() > t.len() - i {
        return false;
    }
    let mut k: usize = 0;
    while k < s.len()
        invariant
            i + s.len() <= t.len(),
            k <= s.len(),
            forall|j: int| 0 <= j < k ==> #[trigger] toks(t@)[i + j] == Tok::Ch(s@[j]),
        decreases s.len() - k,
    {
        if !ch_at_exec(t, i + k, s[k]) {
            return false;
        }
        k += 1;
    }
    true
}

/// `\w` membership, decided by the regex crate.
pub fn word_char(c: char) -> (r: bool)
    ensures
        r == is_word_char(c),
{
    let mut v: Vec<char> = Vec::new();
    v.push(c);
    let s = string_of(&v);
    assert(s@ =~= seq![c]);
    match regex_is_match("\\A\\w\\z", s.as_str()) {
        Some(b) => b,
        None => false,
    }
}

/// `\d` membership, decided by the regex crate.
pub fn digit_char(c: char) -> (r: bool)
    ensures
        r == is_digit_char(c),
{
    let mut v: Vec<char> = Vec::new();
    v.push(c);
    let s = string_of(&v);
    assert(s@ =~= seq![c]);
    match regex_is_match("\\A\\d\\z", s.as_str()) {
        Some(b) => b,
        None => false,
    }
}

fn in_class_exec(cls: &CharClass, c: char) -> (r: bool)
    ensures
        r == in_class(*cls, c),
{
    match cls {
        CharClass::NotCloseBrace => c != '}',
        CharClass::Digit => digit_char(c),
        CharClass::IdentRest => is_ascii_alpha_char(c) || is_ascii_digit_char(c) || c == '_',
    }
}

fn class_at_exec(t: &Vec<Piece>, j: usize, cls: &CharClass) -> (r: bool)
    requires
        j < t.len(),
    ensures
        r == (toks(t@)[j as int] matches Tok::Ch(c) && in_class(*cls, c)),
{
    match &t[j] {
        Piece::Ch(c) => in_class_exec(cls, *c),
        Piece::Val(_) => false,
    }
}

proof fn lemma_run_len(t: Seq<Tok>, i: int, j: int, cls: CharClass)
    requires
        0 <= i <= j <= t.len(),
        forall|k: int| i <= k < j ==> (#[trigger] t[k] matches Tok::Ch(c) && in_class(cls, c)),
        j == t.len() || !(t[j] matches Tok::Ch(c) && in_class(cls, c)),
    ensures
        run_len(t, i, cls) == j - i,
    decreases j - i,
{
    if i < j {
        lemma_run_len(t, i + 1, j, cls);
    }
}

fn run_len_exec(t: &Vec<Piece>, i: usize, cls: &CharClass) -> (r: usize)
    requires
        i <= t.len(),
    ensures
        r == run_len(toks(t@), i as int, *cls),
        i + r <= t.len(),
{
    let mut j: usize = i;
    while j < t.len() && class_at_exec(t, j, cls)
        invariant
            i <= j <= t.len(),
            forall|k: int| i <= k < j ==> (#[trigger] toks(t@)[k] matches Tok::Ch(c) && in_class(
                *cls,
                c,
            )),
        decreases t.len() - j,
    {
        j += 1;
    }
    proof {
        lemma_run_len(toks(t@), i as int, j as int, *cls);
    }
    j - i
}

fn run_text_exec(t: &Vec<Piece>, i: usize, n: usize) -> (r: Vec<char>)
    requires
        i + n <= t.len(),
    ensures
        r@ == run_text(toks(t@), i as int, n as nat),
{
    let mut r: Vec<char> = Vec::new();
    let mut k: usize = 0;
    while k < n
        invariant
            i + n <= t.len(),
            k <= n,
            r@ == run_text(toks(t@), i as int, k as nat),
        decreases n - k,
    {
        let c = match &t[i + k] {
            Piece::Ch(c) => *c,
            Piece::Val(_) => '\0',
        };
        r.push(c);
        assert(r@ =~= run_text(toks(t@), i as int, (k + 1) as nat));
        k += 1;
    }
    r
}

fn match_run_closed_exec(
    t: &Vec<Piece>,
    i: usize,
    opening: &Vec<char>,
    cls: &CharClass,
    min: usize,
    close: &Vec<char>,
) -> (r: Option<usize>)
    ensures
        match r {
            Some(n) => match_run_closed(toks(t@), i as int, opening@, *cls, min as nat, close@) == Some(
                n as nat,
            ) && i + n <= t.len() && n >= opening@.len() + close@.len(),
            None => match_run_closed(toks(t@), i as int, opening@, *cls, min as nat, close@) is None,
        },
{
    let len = t.len();
    if !lit_at_exec(t, i, opening) {
        return None;
    }
    assert(i + opening@.len() <= len);
    let s = i + opening.len();
    let n = run_len_exec(t, s, cls);
    if n >= min && lit_at_exec(t, s + n, close) {
        Some(opening.len() + n + close.len())
    } else {
        None
    }
}

fn word_at_exec(t: &Vec<Piece>, j: usize) -> (r: bool)
    ensures
        r == word_at(toks(t@), j as int),
{
    if j >= t.len() {
        return false;
    }
    match &t[j] {
        Piece::Ch(c) => word_char(*c),
        Piece::Val(_) => false,
    }
}

fn match_digits_bounded_exec(t: &Vec<Piece>, i: usize, opening: &Vec<char>) -> (r: Option<usize>)
    ensures
        match r {
            Some(n) => match_digits_bounded(toks(t@), i as int, opening@) == Some(n as nat) && i + n
                <= t.len() && n >= opening@.len() + 1,
            None => match_digits_bounded(toks(t@), i as int, opening@) is None,
        },
{
    let len = t.len();
    if !lit_at_exec(t, i, opening) {
        return None;
    }
    assert(i + opening@.len() <= len);
    let s = i + opening.len();
    let n = run_len_exec(t, s, &CharClass::Digit);
    if n >= 1 && !word_at_exec(t, s + n) {
        Some(opening.len() + n)
    } else {
        None
    }
}

fn match_ident_closed_exec(t: &Vec<Piece>, i: usize, opening: &Vec<char>, close: &Vec<char>) -> (r:
    Option<usize>)
    ensures
        match r {
            Some(n) => match_ident_closed(toks(t@), i as int, opening@, close@) == Some(n as nat) && i
                + n <= t.len() && n >= opening@.len() + 1 + close@.len(),
            None => match_ident_closed(toks(t@), i as int, opening@, close@) is None,
        },
{
    let len = t.len();
    if !lit_at_exec(t, i, opening) {
        return None;
    }
    assert(i + opening@.len() <= len);
    let s = i + opening.len();
    if s >= t.len() {
        return None;
    }
    let first_ok = match &t[s] {
        Piece::Ch(c) => is_ascii_alpha_char(*c) || *c == '_',
        Piece::Val(_) => false,
    };
    if !first_ok {
        return None;
    }
    let n = 1 + run_len_exec(t, s + 1, &CharClass::IdentRest);
    if lit_at_exec(t, s + n, close) {
        Some(opening.len() + n + close.len())
    } else {
        None
    }
}

/// The URLs stored in the variables.
pub fn url_values_exec(vars: &StringMap) -> (r: Vec<Vec<char>>)
    ensures
        views(r@) == url_values(vars.pairs()),
{
    match vars.get_str("__noticeflow_url_values") {
        Some(text) => match json_parse_string_list(text.as_str()) {
            Some(urls) => {
                let mut r: Vec<Vec<char>> = Vec::new();
                let mut i: usize = 0;
                while i < urls.len()
                    invariant
                        i <= urls.len(),
                        views(r@) =~= urls@.map_values(|s: String| s@).take(i as int),
                    decreases urls.len() - i,
                {
                    let ghost before = views(r@);
                    r.push(chars_of(urls[i].as_str()));
                    assert(views(r@) =~= before.push(urls@[i as int]@));
                    assert(urls@.map_values(|s: String| s@).take(i + 1) =~= urls@.map_values(
                        |s: String| s@,
                    ).take(i as int).push(urls@[i as int]@));
                    i += 1;
                }
                assert(urls@.map_values(|s: String| s@).take(urls.len() as int) =~= urls@.map_values(
                    |s: String| s@,
                ));
                r
            },
            None => {
                let r: Vec<Vec<char>> = Vec::new();
                assert(views(r@) =~= Seq::<Seq<char>>::empty());
                r
            },
        },
        None => {
            let r: Vec<Vec<char>> = Vec::new();
            assert(views(r@) =~= Seq::<Seq<char>>::empty());
            r
        },
    }
}

/// The `index`-th URL (counting from 1), or nothing.
pub fn dynamic_url_value_exec(index: usize, vars: &StringMap) -> (r: Vec<char>)
    ensures
        r@ == dynamic_url_value(index as nat, vars.pairs()),
{
    let urls = url_values_exec(vars);
    assert(views(urls@).len() == urls@.len());
    if urls.len() == 0 || index == 0 || index > urls.len() {
        Vec::new()
    } else {
        assert(views(urls@)[index - 1] == urls@[index - 1]@);
        urls[index - 1].clone()
    }
}

/// Decodes the escapes of a `urls_join` separator: `\n`, `\r`, `\t`
/// and `\\`; any other backslash stays.
pub fn decode_join_separator(value: &str) -> (r: String)
    ensures
        r@ == decode_separator(value@),
{
    let decoded = decode_separator_exec(&chars_of(value));
    string_of(&decoded)
}

/// Decodes the escapes of a `urls_join` separator.
pub fn decode_separator_exec(s: &Vec<char>) -> (r: Vec<char>)
    ensures
        r@ == decode_separator(s@),
{
    let mut r: Vec<char> = Vec::new();
    let mut i: usize = 0;
    assert(s@.skip(0) =~= s@);
    assert(r@ + decode_separator(s@.skip(0)) =~= decode_separator(s@));
    while i < s.len()
        invariant
            i <= s.len(),
            r@ + decode_separator(s@.skip(i as int)) == decode_separator(s@),
        decreases s.len() - i,
    {
        let ghost rest = s@.skip(i as int);
        assert(rest[0] == s@[i as int]);
        if s[i] != '\\' {
            r.push(s[i]);
            assert(rest.drop_first() =~= s@.skip(i + 1));
            assert(r@ + decode_separator(s@.skip(i + 1)) =~= decode_separator(s@));
            i += 1;
        } else if i + 1 == s.len() {
            r.push('\\');
            assert(rest.len() == 1);
            assert(s@.skip(i + 1).len() == 0);
            assert(r@ + decode_separator(s@.skip(i + 1)) =~= decode_separator(s@));
            i += 1;
        } else {
            let e = s[i + 1];
            assert(rest[1] == e);
            if e == 'n' {
                r.push('\n');
            } else if e == 'r' {
                r.push('\r');
            } else if e == 't' {
                r.push('\t');
            } else if e == '\\' {
                r.push('\\');
            } else {
                r.push('\\');
                r.push(e);
            }
            assert(rest.skip(2) =~= s@.skip(i + 2));
            assert(r@ + decode_separator(s@.skip(i + 2)) =~= decode_separator(s@));
            i += 2;
        }
    }
    assert(s@.skip(s.len() as int) =~= Seq::<char>::empty());
    assert(r@ =~= decode_separator(s@));
    r
}

/// `value` quoted for a POSIX shell.
pub fn shell_quote_exec(v: &Vec<char>) -> (r: Vec<char>)
    ensures
        r@ == shell_quote(v@),
{
    let mut rep: Vec<char> = Vec::new();
    rep.push('\'');
    rep.push('\\');
    rep.push('\'');
    rep.push('\'');
    let body = replace_char_chars(v, '\'', &rep);
    let mut r: Vec<char> = Vec::new();
    r.push('\'');
    extend_chars(&mut r, &body);
    r.push('\'');
    assert(rep@ =~= seq!['\'', '\\', '\'', '\'']);
    assert(r@ =~= shell_quote(v@));
    r
}

fn value_or_empty_exec(vars: &StringMap, name: &Vec<char>) -> (r: Vec<char>)
    ensures
        r@ == value_or_empty(vars.pairs(), name@),
{
    match vars.get(name) {
        Some(v) => chars_of(v.as_str()),
        None => Vec::new(),
    }
}

fn url_index_exec(digits: &Vec<char>) -> (r: usize)
    ensures
        r as nat == url_index(digits@),
{
    match parse_u64(digits) {
        Some(n) => {
            if n as u128 <= usize::MAX as u128 {
                n as usize
            } else {
                1
            }
        },
        None => 1,
    }
}

fn match_escaped_exec(t: &Vec<Piece>, i: usize) -> (r: Option<(usize, Vec<char>)>)
    ensures
        match r {
            Some((n, v)) => match_escaped(toks(t@), i as int) == Some((n as nat, v@)) && 1 <= n
                && i + n <= t.len(),
            None => match_escaped(toks(t@), i as int) is None,
        },
{
    let o = chars_of("$${");
    let c = chars_of("}");
    match match_run_closed_exec(t, i, &o, &CharClass::NotCloseBrace, 1, &c) {
        Some(n) => {
            proof {
                lemma_escape_opening_len();
            }
            Some((n, run_text_exec(t, i + 1, n - 1)))
        },
        None => {
            let o2 = chars_of("$$url_");
            match match_digits_bounded_exec(t, i, &o2) {
                Some(n) => Some((n, run_text_exec(t, i + 1, n - 1))),
                None => None,
            }
        },
    }
}

proof fn lemma_escape_opening_len()
    ensures
        "$${"@.len() == 3,
{
    reveal_strlit("$${");
}

fn match_two_forms_exec(
    t: &Vec<Piece>,
    i: usize,
    o1: &Vec<char>,
    c1: &Vec<char>,
    o2: &Vec<char>,
    c2: &Vec<char>,
    cls: &CharClass,
    min: usize,
) -> (r: Option<(usize, Vec<char>)>)
    ensures
        match r {
            Some((n, v)) => match_two_forms(toks(t@), i as int, o1@, c1@, o2@, c2@, *cls, min as nat)
                == Some((n as nat, v@)) && i + n <= t.len(),
            None => match_two_forms(toks(t@), i as int, o1@, c1@, o2@, c2@, *cls, min as nat) is None,
        },
{
    match match_run_closed_exec(t, i, o1, cls, min, c1) {
        Some(n) => Some((n, run_text_exec(t, i + o1.len(), n - o1.len() - c1.len()))),
        None => match match_run_closed_exec(t, i, o2, cls, min, c2) {
            Some(n) => Some((n, run_text_exec(t, i + o2.len(), n - o2.len() - c2.len()))),
            None => None,
        },
    }
}

fn match_urls_join_exec(vars: &StringMap, t: &Vec<Piece>, i: usize) -> (r: Option<
    (usize, Vec<char>),
>)
    ensures
        match r {
            Some((n, v)) => match_urls_join(vars.pairs(), toks(t@), i as int) == Some(
                (n as nat, v@),
            ) && i + n <= t.len(),
            None => match_urls_join(vars.pairs(), toks(t@), i as int) is None,
        },
{
    let m = match_two_forms_exec(
        t,
        i,
        &chars_of("{{urls_join:"),
        &chars_of("}}"),
        &chars_of("${urls_join:"),
        &chars_of("}"),
        &CharClass::NotCloseBrace,
        0,
    );
    match m {
        Some((n, sep)) => {
            let urls = url_values_exec(vars);
            let decoded = decode_separator_exec(&sep);
            Some((n, join_chars(&urls, &decoded)))
        },
        None => None,
    }
}

fn match_url_digits_exec(t: &Vec<Piece>, i: usize) -> (r: Option<(usize, Vec<char>)>)
    ensures
        match r {
            Some((n, v)) => match_url_digits(toks(t@), i as int) == Some((n as nat, v@)) && i + n
                <= t.len(),
            None => match_url_digits(toks(t@), i as int) is None,
        },
{
    let m = match_two_forms_exec(
        t,
        i,
        &chars_of("{{url_"),
        &chars_of("}}"),
        &chars_of("${url_"),
        &chars_of("}"),
        &CharClass::Digit,
        1,
    );
    match m {
        Some(x) => Some(x),
        None => {
            let o3 = chars_of("$url_");
            match match_digits_bounded_exec(t, i, &o3) {
                Some(n) => Some((n, run_text_exec(t, i + o3.len(), n - o3.len()))),
                None => None,
            }
        },
    }
}

fn match_dynamic_url_exec(vars: &StringMap, t: &Vec<Piece>, i: usize) -> (r: Option<
    (usize, Vec<char>),
>)
    ensures
        match r {
            Some((n, v)) => match_dynamic_url(vars.pairs(), toks(t@), i as int) == Some(
                (n as nat, v@),
            ) && i + n <= t.len(),
            None => match_dynamic_url(vars.pairs(), toks(t@), i as int) is None,
        },
{
    match match_url_digits_exec(t, i) {
        Some((n, digits)) => {
            let index = url_index_exec(&digits);
            Some((n, dynamic_url_value_exec(index, vars)))
        },
        None => None,
    }
}

fn match_modifier_name_exec(t: &Vec<Piece>, i: usize, o1: &Vec<char>, o2: &Vec<char>) -> (r:
    Option<(usize, Vec<char>)>)
    ensures
        match r {
            Some((n, v)) => match_modifier_name(toks(t@), i as int, o1@, o2@) == Some(
                (n as nat, v@),
            ) && i + n <= t.len(),
            None => match_modifier_name(toks(t@), i as int, o1@, o2@) is None,
        },
{
    let c1 = chars_of("}}");
    let c2 = chars_of("}");
    match match_ident_closed_exec(t, i, o1, &c1) {
        Some(n) => Some((n, run_text_exec(t, i + o1.len(), n - o1.len() - c1.len()))),
        None => match match_ident_closed_exec(t, i, o2, &c2) {
            Some(n) => Some((n, run_text_exec(t, i + o2.len(), n - o2.len() - c2.len()))),
            None => None,
        },
    }
}

fn match_json_exec(vars: &StringMap, t: &Vec<Piece>, i: usize) -> (r: Option<(usize, Vec<char>)>)
    ensures
        match r {
            Some((n, v)) => match_json(vars.pairs(), toks(t@), i as int) == Some((n as nat, v@))
                && i + n <= t.len(),
            None => match_json(vars.pairs(), toks(t@), i as int) is None,
        },
{
    match match_modifier_name_exec(t, i, &chars_of("{{json:"), &chars_of("${json:")) {
        Some((n, name)) => {
            let value = string_of(&value_or_empty_exec(vars, &name));
            let quoted = json_string(value.as_str());
            Some((n, chars_of(quoted.as_str())))
        },
        None => None,
    }
}

fn match_shell_exec(vars: &StringMap, t: &Vec<Piece>, i: usize) -> (r: Option<(usize, Vec<char>)>)
    ensures
        match r {
            Some((n, v)) => match_shell(vars.pairs(), toks(t@), i as int) == Some((n as nat, v@))
                && i + n <= t.len(),
            None => match_shell(vars.pairs(), toks(t@), i as int) is None,
        },
{
    match match_modifier_name_exec(t, i, &chars_of("{{shell:"), &chars_of("${shell:")) {
        Some((n, name)) => {
            let value = value_or_empty_exec(vars, &name);
            Some((n, shell_quote_exec(&value)))
        },
        None => None,
    }
}

fn match_here(p: &PassExec, vars: &StringMap, t: &Vec<Piece>, i: usize) -> (r: Option<
    (usize, Vec<char>),
>)
    requires
        i < t.len(),
    ensures
        match r {
            Some((n, v)) => match_at(p@, vars.pairs(), toks(t@), i as int) == Some(
                (n as nat, v@),
            ) && i + n <= t.len(),
            None => match_at(p@, vars.pairs(), toks(t@), i as int) is None,
        },
{
    match p {
        PassExec::EscapedSpecial => match_escaped_exec(t, i),
        PassExec::UrlsJoin => match_urls_join_exec(vars, t, i),
        PassExec::DynamicUrl => match_dynamic_url_exec(vars, t, i),
        PassExec::JsonValue => match_json_exec(vars, t, i),
        PassExec::ShellValue => match_shell_exec(vars, t, i),
        PassExec::Literal(pat, rep) => {
            if pat.len() > 0 && lit_at_exec(t, i, pat) {
                Some((pat.len(), rep.clone()))
            } else {
                None
            }
        },
    }
}

fn copy_piece(p: &Piece) -> (q: Piece)
    ensures
        q@ == p@,
{
    match p {
        Piece::Ch(c) => {
            let d: char = *c;
            Piece::Ch(d)
        },
        Piece::Val(v) => Piece::Val(v.clone()),
    }
}

/// Applies one pass to a token sequence.
fn apply_pass(p: &PassExec, vars: &StringMap, t: &Vec<Piece>) -> (r: Vec<Piece>)
    ensures
        toks(r@) == apply(p@, vars.pairs(), toks(t@)),
{
    let ghost tt = toks(t@);
    let mut r: Vec<Piece> = Vec::new();
    let mut i: usize = 0;
    while i < t.len()
        invariant
            i <= t.len(),
            tt == toks(t@),
            toks(r@) + apply_from(p@, vars.pairs(), tt, i as int) == apply(p@, vars.pairs(), tt),
        decreases t.len() - i,
    {
        match match_here(p, vars, t, i) {
            Some((n, v)) if n >= 1 => {
                let ghost before = toks(r@);
                r.push(Piece::Val(v));
                assert(toks(r@) =~= before + seq![Tok::Val(v@)]);
                assert(toks(r@) + apply_from(p@, vars.pairs(), tt, (i + n) as int) =~= before
                    + apply_from(p@, vars.pairs(), tt, i as int));
                i += n;
            },
            _ => {
                let ghost before = toks(r@);
                let piece = copy_piece(&t[i]);
                r.push(piece);
                assert(toks(r@) =~= before + seq![tt[i as int]]);
                assert(toks(r@) + apply_from(p@, vars.pairs(), tt, (i + 1) as int) =~= before
                    + apply_from(p@, vars.pairs(), tt, i as int));
                i += 1;
            },
        }
    }
    assert(toks(r@) =~= apply(p@, vars.pairs(), tt));
    r
}


fn utf8_width_exec(c: char) -> (r: u128)
    ensures
        r == utf8_width(c),
{
    let u = c as u32;
    if u < 0x80 {
        1
    } else if u < 0x800 {
        2
    } else if u < 0x10000 {
        3
    } else {
        4
    }
}

/// Length in UTF-8 bytes.
pub fn utf8_len_exec(s: &Vec<char>) -> (r: u128)
    ensures
        r == utf8_len(s@),
{
    let mut n: u128 = 0;
    let mut i: usize = 0;
    while i < s.len()
        invariant
            i <= s.len(),
            n == utf8_len(s@.take(i as int)),
            n <= 4 * i,
        decreases s.len() - i,
    {
        assert(s@.take(i + 1).drop_last() =~= s@.take(i as int));
        n = n + utf8_width_exec(s[i]);
        i += 1;
    }
    assert(s@.take(s.len() as int) =~= s@);
    n
}

fn replace_before_exec(a: &Vec<char>, la: u128, b: &Vec<char>, lb: u128) -> (r: bool)
    requires
        la == utf8_len(a@),
        lb == utf8_len(b@),
    ensures
        r == replace_before(a@, b@),
{
    la > lb || (la == lb && text_less(a, b))
}

proof fn lemma_insert_in_order(x: Seq<char>, s: Seq<Seq<char>>, j: int)
    requires
        0 <= j <= s.len(),
        forall|k: int| 0 <= k < j ==> !replace_before(x, #[trigger] s[k]),
        j == s.len() || replace_before(x, s[j]),
    ensures
        insert_in_order(x, s) == s.take(j) + seq![x] + s.skip(j),
    decreases j,
{
    if j == 0 {
        assert(s.take(0) + seq![x] + s.skip(0) =~= seq![x] + s);
        if s.len() == 0 {
            assert(seq![x] + s =~= seq![x]);
        }
    } else {
        let t = s.drop_first();
        assert forall|k: int| 0 <= k < j - 1 implies !replace_before(x, #[trigger] t[k]) by {
            assert(t[k] == s[k + 1]);
        }
        if j < s.len() {
            assert(t[j - 1] == s[j]);
        }
        lemma_insert_in_order(x, t, j - 1);
        assert(!replace_before(x, s[0]));
        assert(seq![s[0]] + (t.take(j - 1) + seq![x] + t.skip(j - 1)) =~= s.take(j) + seq![x]
            + s.skip(j));
    }
}

/// No key of `s` is shorter, in bytes, than a key after it.
pub open spec fn longest_first(s: Seq<Seq<char>>) -> bool {
    forall|i: int, j: int| 0 <= i < j < s.len() ==> utf8_len(#[trigger] s[i]) >= utf8_len(#[trigger] s[j])
}

proof fn lemma_insert_keeps_order(x: Seq<char>, s: Seq<Seq<char>>)
    requires
        longest_first(s),
    ensures
        longest_first(insert_in_order(x, s)),
        insert_in_order(x, s).len() == s.len() + 1,
        forall|y: Seq<char>| #[trigger] insert_in_order(x, s).contains(y) <==> (y == x || s.contains(y)),
    decreases s.len(),
{
    let r = insert_in_order(x, s);
    if s.len() == 0 {
        assert(r =~= seq![x]);
        assert forall|y: Seq<char>| #[trigger] r.contains(y) <==> (y == x || s.contains(y)) by {
            if r.contains(y) {
                let k = choose|k: int| 0 <= k < r.len() && r[k] == y;
                assert(k == 0);
            }
            if y == x {
                assert(r[0] == y);
            }
        }
    } else if replace_before(x, s[0]) {
        assert(r =~= seq![x] + s);
        assert forall|i: int, j: int| 0 <= i < j < r.len() implies utf8_len(#[trigger] r[i]) >= utf8_len(#[trigger] r[j]) by {
            if i == 0 {
                if j > 1 {
                    assert(utf8_len(s[0]) >= utf8_len(s[j - 1]));
                }
                assert(r[j] == s[j - 1]);
            } else {
                assert(r[i] == s[i - 1] && r[j] == s[j - 1]);
            }
        }
        assert forall|y: Seq<char>| #[trigger] r.contains(y) <==> (y == x || s.contains(y)) by {
            if r.contains(y) {
                let k = choose|k: int| 0 <= k < r.len() && r[k] == y;
                if k > 0 {
                    assert(s[k - 1] == y);
                }
            }
            if y == x {
                assert(r[0] == y);
            }
            if s.contains(y) {
                let k = choose|k: int| 0 <= k < s.len() && s[k] == y;
                assert(r[k + 1] == y);
            }
        }
    } else {
        let t = s.drop_first();
        assert forall|i: int, j: int| 0 <= i < j < t.len() implies utf8_len(#[trigger] t[i]) >= utf8_len(#[trigger] t[j]) by {
            assert(t[i] == s[i + 1] && t[j] == s[j + 1]);
        }
        lemma_insert_keeps_order(x, t);
        let rt = insert_in_order(x, t);
        assert(r =~= seq![s[0]] + rt);
        assert(utf8_len(x) <= utf8_len(s[0]));
        assert forall|i: int, j: int| 0 <= i < j < r.len() implies utf8_len(#[trigger] r[i]) >= utf8_len(#[trigger] r[j]) by {
            if i == 0 {
                let y = r[j];
                assert(rt[j - 1] == y);
                assert(rt.contains(y));
                if y != x {
                    assert(t.contains(y));
                    let k = choose|k: int| 0 <= k < t.len() && t[k] == y;
                    assert(s[k + 1] == y);
                    assert(utf8_len(s[0]) >= utf8_len(s[k + 1]));
                }
            } else {
                assert(r[i] == rt[i - 1] && r[j] == rt[j - 1]);
            }
        }
        assert forall|y: Seq<char>| #[trigger] r.contains(y) <==> (y == x || s.contains(y)) by {
            if r.contains(y) {
                let k = choose|k: int| 0 <= k < r.len() && r[k] == y;
                if k > 0 {
                    assert(rt[k - 1] == y);
                    assert(rt.contains(y));
                    if y != x {
                        let q = choose|q: int| 0 <= q < t.len() && t[q] == y;
                        assert(s[q + 1] == y);
                    }
                } else {
                    assert(s[0] == y);
                }
            }
            if y == x {
                assert(rt.contains(y));
                let k = choose|k: int| 0 <= k < rt.len() && rt[k] == y;
                assert(r[k + 1] == y);
            }
            if s.contains(y) {
                let k = choose|k: int| 0 <= k < s.len() && s[k] == y;
                if k == 0 {
                    assert(r[0] == y);
                } else {
                    assert(t[k - 1] == y);
                    assert(t.contains(y));
                    assert(rt.contains(y));
                    let q = choose|q: int| 0 <= q < rt.len() && rt[q] == y;
                    assert(r[q + 1] == y);
                }
            }
        }
    }
}

/// Keys are substituted longest first: in substitution order no key is
/// shorter, in bytes, than a key after it, and the order holds exactly
/// the keys given.
pub proof fn lemma_longer_keys_first(keys: Seq<Seq<char>>)
    ensures
        longest_first(sort_for_replace(keys)),
        sort_for_replace(keys).len() == keys.len(),
        forall|y: Seq<char>| #[trigger] sort_for_replace(keys).contains(y) <==> keys.contains(y),
    decreases keys.len(),
{
    if keys.len() > 0 {
        let d = keys.drop_last();
        lemma_longer_keys_first(d);
        lemma_insert_keeps_order(keys.last(), sort_for_replace(d));
        assert forall|y: Seq<char>| #[trigger] sort_for_replace(keys).contains(y) <==> keys.contains(y) by {
            if keys.contains(y) {
                let k = choose|k: int| 0 <= k < keys.len() && keys[k] == y;
                if k < d.len() {
                    assert(d[k] == y);
                    assert(d.contains(y));
                }
            }
            if d.contains(y) {
                let k = choose|k: int| 0 <= k < d.len() && d[k] == y;
                assert(keys[k] == y);
            }
        }
    } else {
        assert(sort_for_replace(keys) =~= Seq::<Seq<char>>::empty());
    }
}

proof fn lemma_utf8_len_concat(a: Seq<char>, b: Seq<char>)
    ensures
        utf8_len(a + b) == utf8_len(a) + utf8_len(b),
        b.len() > 0 ==> utf8_len(b) > 0,
    decreases b.len(),
{
    if b.len() > 0 {
        lemma_utf8_len_concat(a, b.drop_last());
        assert((a + b).drop_last() =~= a + b.drop_last());
        assert((a + b).last() == b.last());
    } else {
        assert(a + b =~= a);
    }
}

/// A key that begins a longer key (as `url` begins `urls_count`) is
/// substituted after it, so `$urls_count` is never read as `$url`
/// followed by `s_count`.
pub proof fn lemma_prefix_key_substituted_later(keys: Seq<Seq<char>>, short: Seq<char>, long: Seq<char>, i: int, j: int)
    requires
        short.is_prefix_of(long),
        short != long,
        0 <= i < sort_for_replace(keys).len(),
        0 <= j < sort_for_replace(keys).len(),
        sort_for_replace(keys)[i] == long,
        sort_for_replace(keys)[j] == short,
    ensures
        i < j,
{
    lemma_longer_keys_first(keys);
    let rest = long.skip(short.len() as int);
    assert(short + rest =~= long);
    lemma_utf8_len_concat(short, rest);
    assert(rest.len() > 0) by {
        if rest.len() == 0 {
            assert(long =~= short);
        }
    }
    let r = sort_for_replace(keys);
    if j < i {
        assert(utf8_len(r[j]) >= utf8_len(r[i]));
    }
}

fn insert_in_order_exec(x: (Vec<char>, u128), s: Vec<(Vec<char>, u128)>) -> (r: Vec<(Vec<char>, u128)>)
    requires
        x.1 == utf8_len(x.0@),
        forall|k: int| 0 <= k < s.len() ==> (#[trigger] s@[k]).1 == utf8_len(s@[k].0@),
    ensures
        keyed_views(r@) == insert_in_order(x.0@, keyed_views(s@)),
        forall|k: int| 0 <= k < r.len() ==> (#[trigger] r@[k]).1 == utf8_len(r@[k].0@),
{
    let ghost sv = keyed_views(s@);
    let mut j: usize = 0;
    while j < s.len() && !replace_before_exec(&x.0, x.1, &s[j].0, s[j].1)
        invariant
            j <= s.len(),
            x.1 == utf8_len(x.0@),
            sv == keyed_views(s@),
            forall|k: int| 0 <= k < s.len() ==> (#[trigger] s@[k]).1 == utf8_len(s@[k].0@),
            forall|k: int| 0 <= k < j ==> !replace_before(x.0@, #[trigger] sv[k]),
        decreases s.len() - j,
    {
        j += 1;
    }
    proof {
        lemma_insert_in_order(x.0@, sv, j as int);
    }
    let mut r: Vec<(Vec<char>, u128)> = Vec::new();
    let mut s = s;
    let mut tail = s.split_off(j);
    r.append(&mut s);
    r.push(x);
    r.append(&mut tail);
    assert(keyed_views(r@) =~= sv.take(j as int) + seq![x.0@] + sv.skip(j as int));
    r
}

/// The keys of a list of (key, byte length) pairs.
pub open spec fn keyed_views(s: Seq<(Vec<char>, u128)>) -> Seq<Seq<char>> {
    s.map_values(|e: (Vec<char>, u128)| e.0@)
}

/// The keys in substitution order.
fn sort_for_replace_exec(keys: &Vec<Vec<char>>) -> (r: Vec<Vec<char>>)
    ensures
        views(r@) == sort_for_replace(views(keys@)),
{
    let ghost kv = views(keys@);
    let mut sorted: Vec<(Vec<char>, u128)> = Vec::new();
    let mut i: usize = 0;
    assert(kv.take(0) =~= Seq::<Seq<char>>::empty());
    assert(keyed_views(sorted@) =~= Seq::<Seq<char>>::empty());
    while i < keys.len()
        invariant
            i <= keys.len(),
            kv == views(keys@),
            keyed_views(sorted@) == sort_for_replace(kv.take(i as int)),
            forall|k: int| 0 <= k < sorted.len() ==> (#[trigger] sorted@[k]).1 == utf8_len(
                sorted@[k].0@,
            ),
        decreases keys.len() - i,
    {
        let k = keys[i].clone();
        let lk = utf8_len_exec(&k);
        assert(kv.take(i + 1).drop_last() =~= kv.take(i as int));
        assert(kv.take(i + 1).last() == kv[i as int]);
        sorted = insert_in_order_exec((k, lk), sorted);
        i += 1;
    }
    assert(kv.take(keys.len() as int) =~= kv);
    let mut r: Vec<Vec<char>> = Vec::new();
    let mut j: usize = 0;
    while j < sorted.len()
        invariant
            j <= sorted.len(),
            views(r@) =~= keyed_views(sorted@).take(j as int),
        decreases sorted.len() - j,
    {
        let ghost before = views(r@);
        r.push(sorted[j].0.clone());
        assert(views(r@) =~= before.push(keyed_views(sorted@)[j as int]));
        assert(keyed_views(sorted@).take(j + 1) =~= keyed_views(sorted@).take(j as int).push(
            keyed_views(sorted@)[j as int],
        ));
        j += 1;
    }
    assert(keyed_views(sorted@).take(sorted.len() as int) =~= keyed_views(sorted@));
    r
}

fn is_internal_key_exec(k: &Vec<char>) -> (r: bool)
    ensures
        r == is_internal_key(k@),
{
    crate::text::starts_with(k, &chars_of("__"))
}

fn literal_pass(a: &str, k: &Vec<char>, b: &str, rep: &Vec<char>) -> (p: PassExec)
    ensures
        p@ == Pass::Literal(a@ + k@ + b@, rep@),
{
    let mut pat = chars_of(a);
    extend_chars(&mut pat, k);
    extend_str(&mut pat, b);
    PassExec::Literal(pat, rep.clone())
}

fn escape_keys_exec(keys: &Vec<Vec<char>>, t: Vec<Piece>, vars: &StringMap) -> (r: Vec<Piece>)
    ensures
        toks(r@) == escape_keys(views(keys@), toks(t@), vars.pairs()),
{
    let ghost ks = views(keys@);
    let ghost goal = escape_keys(ks, toks(t@), vars.pairs());
    let mut cur = t;
    let mut i: usize = 0;
    assert(ks.skip(0) =~= ks);
    while i < keys.len()
        invariant
            i <= keys.len(),
            ks == views(keys@),
            escape_keys(ks.skip(i as int), toks(cur@), vars.pairs()) == goal,
        decreases keys.len() - i,
    {
        let k = &keys[i];
        assert(ks.skip(i as int)[0] == k@);
        assert(ks.skip(i as int).drop_first() =~= ks.skip(i + 1));
        if !is_internal_key_exec(k) {
            let mut dollar = chars_of("$");
            extend_chars(&mut dollar, k);
            let p1 = literal_pass("$$", k, "", &dollar);
            assert(""@ =~= Seq::<char>::empty()) by {
                reveal_strlit("");
            }
            assert("$$"@ + k@ + ""@ =~= "$$"@ + k@);
            let cur1 = apply_pass(&p1, vars, &cur);
            let mut braced = chars_of("${");
            extend_chars(&mut braced, k);
            extend_str(&mut braced, "}");
            let p2 = literal_pass("$${", k, "}", &braced);
            cur = apply_pass(&p2, vars, &cur1);
        }
        i += 1;
    }
    assert(ks.skip(keys.len() as int) =~= Seq::<Seq<char>>::empty());
    cur
}

fn substitute_keys_exec(keys: &Vec<Vec<char>>, t: Vec<Piece>, vars: &StringMap) -> (r: Vec<Piece>)
    ensures
        toks(r@) == substitute_keys(views(keys@), toks(t@), vars.pairs()),
{
    let ghost ks = views(keys@);
    let ghost goal = substitute_keys(ks, toks(t@), vars.pairs());
    let mut cur = t;
    let mut i: usize = 0;
    assert(ks.skip(0) =~= ks);
    assert(""@ =~= Seq::<char>::empty()) by {
        reveal_strlit("");
    }
    while i < keys.len()
        invariant
            i <= keys.len(),
            ks == views(keys@),
            ""@ =~= Seq::<char>::empty(),
            substitute_keys(ks.skip(i as int), toks(cur@), vars.pairs()) == goal,
        decreases keys.len() - i,
    {
        let k = &keys[i];
        assert(ks.skip(i as int)[0] == k@);
        assert(ks.skip(i as int).drop_first() =~= ks.skip(i + 1));
        if !is_internal_key_exec(k) {
            let v = value_or_empty_exec(vars, k);
            let p1 = literal_pass("{{", k, "}}", &v);
            let cur1 = apply_pass(&p1, vars, &cur);
            let p2 = literal_pass("${", k, "}", &v);
            let cur2 = apply_pass(&p2, vars, &cur1);
            let p3 = literal_pass("$", k, "", &v);
            assert("$"@ + k@ + ""@ =~= "$"@ + k@);
            cur = apply_pass(&p3, vars, &cur2);
        }
        i += 1;
    }
    assert(ks.skip(keys.len() as int) =~= Seq::<Seq<char>>::empty());
    cur
}

/// `template` with the variables filled in: escapes, URL joins, numbered
/// URLs, JSON and shell modifiers, then `{{name}}`, `${name}` and `$name`
/// for every key, longest first. A substituted value is never read again.
pub fn replace_variables(template: &str, variables: &StringMap) -> (r: String)
    ensures
        r@ == spec_replace_variables(template@, variables.pairs()),
{
    let chars = chars_of(template);
    let t0 = open_pieces(&chars);
    let t1 = apply_pass(&PassExec::EscapedSpecial, variables, &t0);
    let t2 = apply_pass(&PassExec::UrlsJoin, variables, &t1);
    let t3 = apply_pass(&PassExec::DynamicUrl, variables, &t2);
    let t4 = apply_pass(&PassExec::JsonValue, variables, &t3);
    let t5 = apply_pass(&PassExec::ShellValue, variables, &t4);
    let keys = variables.key_list();
    let sorted = sort_for_replace_exec(&keys);
    assert(views(keys@) == pair_keys(variables.pairs()));
    let t6 = escape_keys_exec(&sorted, t5, variables);
    let t7 = substitute_keys_exec(&sorted, t6, variables);
    let out = render_pieces(&t7);
    string_of(&out)
}


// ---------------------------------------------------------------------
// Plain text
// ---------------------------------------------------------------------

/// No token is an open `$` or `{`, the characters every placeholder
/// starts with.
pub open spec fn no_open_marker(t: Seq<Tok>) -> bool {
    forall|i: int| 0 <= i < t.len() ==> #[trigger] t[i] != Tok::Ch('$') && t[i] != Tok::Ch('{')
}

/// A pass whose matches all start with `$` or `{`.
pub open spec fn marked_pass(p: Pass) -> bool {
    match p {
        Pass::Literal(pat, _) => pat.len() > 0 ==> (pat[0] == '$' || pat[0] == '{'),
        _ => true,
    }
}

proof fn lemma_lit_at_marker(t: Seq<Tok>, i: int, s: Seq<char>)
    requires
        no_open_marker(t),
        s.len() > 0,
        s[0] == '$' || s[0] == '{',
    ensures
        !lit_at(t, i, s),
{
    if lit_at(t, i, s) {
        assert(t[i + 0] == Tok::Ch(s[0]));
    }
}

/// Without an open marker no pass matches anywhere.
proof fn lemma_no_match(p: Pass, vars: Pairs, t: Seq<Tok>, i: int)
    requires
        no_open_marker(t),
        marked_pass(p),
    ensures
        match_at(p, vars, t, i) is None,
{
    reveal_strlit("$${");
    reveal_strlit("$$url_");
    reveal_strlit("{{urls_join:");
    reveal_strlit("${urls_join:");
    reveal_strlit("{{url_");
    reveal_strlit("${url_");
    reveal_strlit("$url_");
    reveal_strlit("{{json:");
    reveal_strlit("${json:");
    reveal_strlit("{{shell:");
    reveal_strlit("${shell:");
    lemma_lit_at_marker(t, i, "$${"@);
    lemma_lit_at_marker(t, i, "$$url_"@);
    lemma_lit_at_marker(t, i, "{{urls_join:"@);
    lemma_lit_at_marker(t, i, "${urls_join:"@);
    lemma_lit_at_marker(t, i, "{{url_"@);
    lemma_lit_at_marker(t, i, "${url_"@);
    lemma_lit_at_marker(t, i, "$url_"@);
    lemma_lit_at_marker(t, i, "{{json:"@);
    lemma_lit_at_marker(t, i, "${json:"@);
    lemma_lit_at_marker(t, i, "{{shell:"@);
    lemma_lit_at_marker(t, i, "${shell:"@);
    match p {
        Pass::Literal(pat, _) => {
            if pat.len() > 0 {
                lemma_lit_at_marker(t, i, pat);
            }
        },
        _ => {},
    }
}

pub(crate) proof fn lemma_apply_plain(p: Pass, vars: Pairs, t: Seq<Tok>)
    requires
        no_open_marker(t),
        marked_pass(p),
    ensures
        apply(p, vars, t) == t,
{
    assert forall|j: int| 0 <= j < t.len() implies #[trigger] match_at(p, vars, t, j) is None by {
        lemma_no_match(p, vars, t, j);
    }
    lemma_apply_nomatch(p, vars, t);
}

pub(crate) proof fn lemma_key_patterns_marked(k: Seq<char>, v: Seq<char>)
    ensures
        marked_pass(Pass::Literal("$$"@ + k, "$"@ + k)),
        marked_pass(Pass::Literal("$${"@ + k + "}"@, "${"@ + k + "}"@)),
        marked_pass(Pass::Literal("{{"@ + k + "}}"@, v)),
        marked_pass(Pass::Literal("${"@ + k + "}"@, v)),
        marked_pass(Pass::Literal("$"@ + k, v)),
{
    reveal_strlit("$$");
    reveal_strlit("$${");
    reveal_strlit("{{");
    reveal_strlit("${");
    reveal_strlit("$");
    assert(("$$"@ + k)[0] == '$');
    assert(("$${"@ + k + "}"@)[0] == '$');
    assert(("{{"@ + k + "}}"@)[0] == '{');
    assert(("${"@ + k + "}"@)[0] == '$');
    assert(("$"@ + k)[0] == '$');
}

proof fn lemma_escape_keys_plain(keys: Seq<Seq<char>>, t: Seq<Tok>, vars: Pairs)
    requires
        no_open_marker(t),
    ensures
        escape_keys(keys, t, vars) == t,
    decreases keys.len(),
{
    if keys.len() > 0 {
        let k = keys[0];
        lemma_key_patterns_marked(k, seq![]);
        if !is_internal_key(k) {
            lemma_apply_plain(Pass::Literal("$$"@ + k, "$"@ + k), vars, t);
            lemma_apply_plain(Pass::Literal("$${"@ + k + "}"@, "${"@ + k + "}"@), vars, t);
        }
        lemma_escape_keys_plain(keys.drop_first(), t, vars);
    }
}

proof fn lemma_substitute_keys_plain(keys: Seq<Seq<char>>, t: Seq<Tok>, vars: Pairs)
    requires
        no_open_marker(t),
    ensures
        substitute_keys(keys, t, vars) == t,
    decreases keys.len(),
{
    if keys.len() > 0 {
        let k = keys[0];
        let v = value_or_empty(vars, k);
        lemma_key_patterns_marked(k, v);
        if !is_internal_key(k) {
            lemma_apply_plain(Pass::Literal("{{"@ + k + "}}"@, v), vars, t);
            lemma_apply_plain(Pass::Literal("${"@ + k + "}"@, v), vars, t);
            lemma_apply_plain(Pass::Literal("$"@ + k, v), vars, t);
        }
        lemma_substitute_keys_plain(keys.drop_first(), t, vars);
    }
}

pub(crate) proof fn lemma_render_open(s: Seq<char>)
    ensures
        render(open_toks(s)) == s,
    decreases s.len(),
{
    if s.len() > 0 {
        lemma_render_open(s.drop_last());
        assert(open_toks(s).drop_last() =~= open_toks(s.drop_last()));
    }
}

/// A template in which no placeholder can start (it holds neither `$`
/// nor `{`) comes out exactly as it went in, whatever the variables.
pub proof fn lemma_plain_template_unchanged(template: Seq<char>, vars: Pairs)
    requires
        !template.contains('$'),
        !template.contains('{'),
    ensures
        spec_replace_variables(template, vars) == template,
{
    let t0 = open_toks(template);
    assert forall|i: int| 0 <= i < t0.len() implies #[trigger] t0[i] != Tok::Ch('$') && t0[i] != Tok::Ch('{') by {
        assert(template[i] != '$' && template[i] != '{');
    }
    lemma_apply_plain(Pass::EscapedSpecial, vars, t0);
    lemma_apply_plain(Pass::UrlsJoin, vars, t0);
    lemma_apply_plain(Pass::DynamicUrl, vars, t0);
    lemma_apply_plain(Pass::JsonValue, vars, t0);
    lemma_apply_plain(Pass::ShellValue, vars, t0);
    let keys = sort_for_replace(pair_keys(vars));
    lemma_escape_keys_plain(keys, t0, vars);
    lemma_substitute_keys_plain(keys, t0, vars);
    lemma_render_open(template);
}


// ---------------------------------------------------------------------
// A lone placeholder
// ---------------------------------------------------------------------

/// `url_` and digits: a name the numbered-URL form reads first.
pub open spec fn numbered_url_name(k: Seq<char>) -> bool {
    &&& k.len() > 4
    &&& "url_"@.is_prefix_of(k)
    &&& forall|j: int| 4 <= j < k.len() ==> is_digit_char(#[trigger] k[j])
}

/// `{{k}}`.
pub open spec fn placeholder(k: Seq<char>) -> Seq<char> {
    "{{"@ + k + "}}"@
}

/// The characters no plain variable name holds: they open, close or
/// qualify a placeholder.
pub open spec fn plain_name(k: Seq<char>) -> bool {
    !k.contains('{') && !k.contains('}') && !k.contains('$') && !k.contains(':')
}

pub(crate) proof fn lemma_lit_at_index(t: Seq<Tok>, i: int, s: Seq<char>, j: int)
    requires
        lit_at(t, i, s),
        0 <= j < s.len(),
    ensures
        t[i + j] == Tok::Ch(s[j]),
{
}

proof fn lemma_no_char_no_lit(t: Seq<Tok>, i: int, s: Seq<char>, j: int)
    requires
        0 <= j < s.len(),
        forall|m: int| 0 <= m < t.len() ==> #[trigger] t[m] != Tok::Ch(s[j]),
    ensures
        !lit_at(t, i, s),
{
    if lit_at(t, i, s) {
        lemma_lit_at_index(t, i, s, j);
    }
}

proof fn lemma_run_len_facts(t: Seq<Tok>, i: int, cls: CharClass)
    requires
        0 <= i,
    ensures
        forall|m: int| i <= m < i + run_len(t, i, cls) ==> 0 <= m < t.len() && (#[trigger] t[m] matches Tok::Ch(c) && in_class(cls, c)),
    decreases t.len() - i,
{
    if 0 <= i < t.len() && (t[i] matches Tok::Ch(c) && in_class(cls, c)) {
        lemma_run_len_facts(t, i + 1, cls);
    }
}

/// A pass that matches nowhere leaves the tokens as they are.
proof fn lemma_apply_from_nomatch(p: Pass, vars: Pairs, t: Seq<Tok>, i: int)
    requires
        0 <= i <= t.len(),
        forall|j: int| 0 <= j < t.len() ==> #[trigger] match_at(p, vars, t, j) is None,
    ensures
        apply_from(p, vars, t, i) == t.subrange(i, t.len() as int),
    decreases t.len() - i,
{
    if i < t.len() {
        assert(match_at(p, vars, t, i) is None);
        lemma_apply_from_nomatch(p, vars, t, i + 1);
        assert(seq![t[i]] + t.subrange(i + 1, t.len() as int) =~= t.subrange(i, t.len() as int));
    } else {
        assert(t.subrange(i, t.len() as int) =~= Seq::<Tok>::empty());
    }
}

pub(crate) proof fn lemma_apply_nomatch(p: Pass, vars: Pairs, t: Seq<Tok>)
    requires
        forall|j: int| 0 <= j < t.len() ==> #[trigger] match_at(p, vars, t, j) is None,
    ensures
        apply(p, vars, t) == t,
{
    lemma_apply_from_nomatch(p, vars, t, 0);
    assert(t.subrange(0, t.len() as int) =~= t);
}

/// The characters of `{{k}}`.
proof fn lemma_placeholder_chars(k: Seq<char>)
    ensures
        placeholder(k).len() == k.len() + 4,
        placeholder(k)[0] == '{',
        placeholder(k)[1] == '{',
        forall|j: int| 0 <= j < k.len() ==> #[trigger] placeholder(k)[j + 2] == k[j],
        placeholder(k)[k.len() as int + 2] == '}',
        placeholder(k)[k.len() as int + 3] == '}',
{
    reveal_strlit("{{");
    reveal_strlit("}}");
    assert forall|j: int| 0 <= j < k.len() implies #[trigger] placeholder(k)[j + 2] == k[j] by {
        assert(("{{"@ + k)[j + 2] == k[j]);
    }
}

/// Where `{{k}}` holds `c`, for a plain name `k`.
proof fn lemma_placeholder_char_at(k: Seq<char>, m: int)
    requires
        plain_name(k),
        0 <= m < k.len() + 4,
    ensures
        placeholder(k)[m] != '$',
        placeholder(k)[m] != ':',
        placeholder(k)[m] == '{' <==> m < 2,
        placeholder(k)[m] == '}' <==> m >= k.len() as int + 2,
{
    lemma_placeholder_chars(k);
    if 2 <= m < k.len() as int + 2 {
        assert(placeholder(k)[(m - 2) + 2] == k[m - 2]);
        assert(k.contains(k[m - 2]));
    }
}

/// No token of `{{k}}` is an open `c` when `c` is `$` or `:`.
proof fn lemma_placeholder_lacks(k: Seq<char>, c: char)
    requires
        plain_name(k),
        c == '$' || c == ':',
    ensures
        forall|m: int| 0 <= m < open_toks(placeholder(k)).len() ==> #[trigger] open_toks(placeholder(k))[m] != Tok::Ch(c),
{
    lemma_placeholder_chars(k);
    assert forall|m: int| 0 <= m < open_toks(placeholder(k)).len() implies #[trigger] open_toks(placeholder(k))[m] != Tok::Ch(c) by {
        lemma_placeholder_char_at(k, m);
    }
}

/// An opening `{{` in the tokens of `{{k}}` stands only at the start.
proof fn lemma_placeholder_open_at(k: Seq<char>, j: int, s: Seq<char>)
    requires
        plain_name(k),
        s.len() >= 2,
        s[0] == '{',
        s[1] == '{',
        lit_at(open_toks(placeholder(k)), j, s),
    ensures
        j == 0,
{
    let t = open_toks(placeholder(k));
    lemma_placeholder_chars(k);
    lemma_lit_at_index(t, j, s, 0);
    lemma_lit_at_index(t, j, s, 1);
    lemma_placeholder_char_at(k, j);
    lemma_placeholder_char_at(k, j + 1);
}

/// No pass before the per-key ones matches in `{{k}}`.
proof fn lemma_placeholder_early_passes(k: Seq<char>, vars: Pairs, p: Pass, j: int)
    requires
        plain_name(k),
        !numbered_url_name(k),
        p == Pass::EscapedSpecial || p == Pass::UrlsJoin || p == Pass::DynamicUrl || p == Pass::JsonValue
            || p == Pass::ShellValue,
    ensures
        match_at(p, vars, open_toks(placeholder(k)), j) is None,
{
    let t = open_toks(placeholder(k));
    lemma_placeholder_lacks(k, '$');
    lemma_placeholder_lacks(k, ':');
    reveal_strlit("$${");
    reveal_strlit("$$url_");
    reveal_strlit("{{urls_join:");
    reveal_strlit("${urls_join:");
    reveal_strlit("{{url_");
    reveal_strlit("${url_");
    reveal_strlit("$url_");
    reveal_strlit("{{json:");
    reveal_strlit("${json:");
    reveal_strlit("{{shell:");
    reveal_strlit("${shell:");
    reveal_strlit("url_");
    reveal_strlit("}}");
    lemma_no_char_no_lit(t, j, "$${"@, 0);
    lemma_no_char_no_lit(t, j, "$$url_"@, 0);
    lemma_no_char_no_lit(t, j, "{{urls_join:"@, 11);
    lemma_no_char_no_lit(t, j, "${urls_join:"@, 0);
    lemma_no_char_no_lit(t, j, "${url_"@, 0);
    lemma_no_char_no_lit(t, j, "$url_"@, 0);
    lemma_no_char_no_lit(t, j, "{{json:"@, 6);
    lemma_no_char_no_lit(t, j, "${json:"@, 0);
    lemma_no_char_no_lit(t, j, "{{shell:"@, 7);
    lemma_no_char_no_lit(t, j, "${shell:"@, 0);
    if lit_at(t, j, "{{url_"@) {
        lemma_placeholder_open_at(k, j, "{{url_"@);
        lemma_placeholder_chars(k);
        if k.len() < 4 {
            lemma_lit_at_index(t, 0, "{{url_"@, k.len() as int + 2);
            lemma_placeholder_char_at(k, k.len() as int + 2);
        }
        assert forall|m: int| 0 <= m < 4 implies #[trigger] k[m] == "url_"@[m] by {
            lemma_lit_at_index(t, 0, "{{url_"@, m + 2);
        }
        assert(k.subrange(0, 4) =~= "url_"@);
        assert("url_"@.is_prefix_of(k));
        let n = run_len(t, 6, CharClass::Digit);
        lemma_run_len_facts(t, 6, CharClass::Digit);
        if n >= 1 && lit_at(t, 6 + n as int, "}}"@) {
            lemma_lit_at_index(t, 6 + n as int, "}}"@, 0);
            lemma_placeholder_char_at(k, 6 + n as int);
            lemma_placeholder_char_at(k, k.len() as int + 2);
            assert(6 + n as int == k.len() as int + 2);
            assert forall|m: int| 4 <= m < k.len() implies is_digit_char(#[trigger] k[m]) by {
                assert(t[m + 2] matches Tok::Ch(c) && in_class(CharClass::Digit, c));
                assert(placeholder(k)[m + 2] == k[m]);
            }
            assert(numbered_url_name(k));
        }
    }
}

/// `{{k2}}` for another name `k2` matches nowhere in `{{k}}`.
proof fn lemma_other_placeholder(k: Seq<char>, k2: Seq<char>, v: Seq<char>, vars: Pairs, j: int)
    requires
        plain_name(k),
        k2 != k,
    ensures
        match_at(Pass::Literal(placeholder(k2), v), vars, open_toks(placeholder(k)), j) is None,
{
    let t = open_toks(placeholder(k));
    let pat = placeholder(k2);
    lemma_placeholder_chars(k2);
    if lit_at(t, j, pat) {
        lemma_placeholder_open_at(k, j, pat);
        lemma_placeholder_chars(k);
        lemma_lit_at_index(t, 0, pat, k2.len() as int + 2);
        lemma_placeholder_char_at(k, k2.len() as int + 2);
        assert(k2.len() == k.len());
        assert forall|m: int| 0 <= m < k.len() implies #[trigger] k2[m] == k[m] by {
            lemma_lit_at_index(t, 0, pat, m + 2);
            assert(placeholder(k2)[m + 2] == k2[m]);
            assert(placeholder(k)[m + 2] == k[m]);
        }
        assert(k2 =~= k);
    }
}

/// A pattern starting with `$` matches nowhere in `{{k}}`.
proof fn lemma_dollar_pattern(k: Seq<char>, pat: Seq<char>, v: Seq<char>, vars: Pairs, j: int)
    requires
        plain_name(k),
        pat.len() > 0,
        pat[0] == '$',
    ensures
        match_at(Pass::Literal(pat, v), vars, open_toks(placeholder(k)), j) is None,
{
    lemma_placeholder_lacks(k, '$');
    lemma_no_char_no_lit(open_toks(placeholder(k)), j, pat, 0);
}

/// A single value token is left alone by every fixed-text pass.
proof fn lemma_literal_on_value(pat: Seq<char>, rep: Seq<char>, vars: Pairs, v: Seq<char>)
    ensures
        apply(Pass::Literal(pat, rep), vars, seq![Tok::Val(v)]) == seq![Tok::Val(v)],
{
    let t = seq![Tok::Val(v)];
    assert forall|j: int| 0 <= j < t.len() implies #[trigger] match_at(Pass::Literal(pat, rep), vars, t, j) is None by {
        if pat.len() > 0 && lit_at(t, j, pat) {
            lemma_lit_at_index(t, j, pat, 0);
        }
    }
    lemma_apply_nomatch(Pass::Literal(pat, rep), vars, t);
}

proof fn lemma_escape_keys_placeholder(keys: Seq<Seq<char>>, k: Seq<char>, vars: Pairs)
    requires
        plain_name(k),
    ensures
        escape_keys(keys, open_toks(placeholder(k)), vars) == open_toks(placeholder(k)),
    decreases keys.len(),
{
    let t = open_toks(placeholder(k));
    if keys.len() > 0 {
        let k2 = keys[0];
        lemma_key_patterns_marked(k2, seq![]);
        reveal_strlit("$$");
        reveal_strlit("$${");
        if !is_internal_key(k2) {
            let p1 = Pass::Literal("$$"@ + k2, "$"@ + k2);
            let p2 = Pass::Literal("$${"@ + k2 + "}"@, "${"@ + k2 + "}"@);
            assert(("$$"@ + k2)[0] == '$');
            assert(("$${"@ + k2 + "}"@)[0] == '$');
            assert forall|j: int| 0 <= j < t.len() implies #[trigger] match_at(p1, vars, t, j) is None by {
                lemma_dollar_pattern(k, "$$"@ + k2, "$"@ + k2, vars, j);
            }
            lemma_apply_nomatch(p1, vars, t);
            assert forall|j: int| 0 <= j < t.len() implies #[trigger] match_at(p2, vars, t, j) is None by {
                lemma_dollar_pattern(k, "$${"@ + k2 + "}"@, "${"@ + k2 + "}"@, vars, j);
            }
            lemma_apply_nomatch(p2, vars, t);
        }
        lemma_escape_keys_placeholder(keys.drop_first(), k, vars);
    }
}

proof fn lemma_substitute_keys_value(keys: Seq<Seq<char>>, vars: Pairs, v: Seq<char>)
    ensures
        substitute_keys(keys, seq![Tok::Val(v)], vars) == seq![Tok::Val(v)],
    decreases keys.len(),
{
    if keys.len() > 0 {
        let k2 = keys[0];
        let w = value_or_empty(vars, k2);
        lemma_literal_on_value("{{"@ + k2 + "}}"@, w, vars, v);
        lemma_literal_on_value("${"@ + k2 + "}"@, w, vars, v);
        lemma_literal_on_value("$"@ + k2, w, vars, v);
        lemma_substitute_keys_value(keys.drop_first(), vars, v);
    }
}

/// `{{k}}` becomes its value at the first turn of `k`, and stays so.
proof fn lemma_substitute_keys_placeholder(keys: Seq<Seq<char>>, k: Seq<char>, vars: Pairs)
    requires
        plain_name(k),
        !is_internal_key(k),
    ensures
        substitute_keys(keys, open_toks(placeholder(k)), vars) == (if keys.contains(k) {
            seq![Tok::Val(value_or_empty(vars, k))]
        } else {
            open_toks(placeholder(k))
        }),
    decreases keys.len(),
{
    let t = open_toks(placeholder(k));
    if keys.len() > 0 {
        let k2 = keys[0];
        let w = value_or_empty(vars, k2);
        reveal_strlit("${");
        reveal_strlit("$");
        let p2 = Pass::Literal("${"@ + k2 + "}"@, w);
        let p3 = Pass::Literal("$"@ + k2, w);
        assert(("${"@ + k2 + "}"@)[0] == '$');
        assert(("$"@ + k2)[0] == '$');
        if k2 == k {
            let p1 = Pass::Literal(placeholder(k), w);
            lemma_placeholder_chars(k);
            assert(lit_at(t, 0, placeholder(k)));
            assert(apply_from(p1, vars, t, t.len() as int) =~= Seq::<Tok>::empty());
            assert(apply(p1, vars, t) =~= seq![Tok::Val(w)]);
            lemma_literal_on_value("${"@ + k2 + "}"@, w, vars, w);
            lemma_literal_on_value("$"@ + k2, w, vars, w);
            lemma_substitute_keys_value(keys.drop_first(), vars, w);
            assert(keys.contains(k));
        } else {
            if !is_internal_key(k2) {
                let p1 = Pass::Literal("{{"@ + k2 + "}}"@, w);
                assert forall|j: int| 0 <= j < t.len() implies #[trigger] match_at(p1, vars, t, j) is None by {
                    lemma_other_placeholder(k, k2, w, vars, j);
                }
                lemma_apply_nomatch(p1, vars, t);
                assert forall|j: int| 0 <= j < t.len() implies #[trigger] match_at(p2, vars, t, j) is None by {
                    lemma_dollar_pattern(k, "${"@ + k2 + "}"@, w, vars, j);
                }
                lemma_apply_nomatch(p2, vars, t);
                assert forall|j: int| 0 <= j < t.len() implies #[trigger] match_at(p3, vars, t, j) is None by {
                    lemma_dollar_pattern(k, "$"@ + k2, w, vars, j);
                }
                lemma_apply_nomatch(p3, vars, t);
            }
            lemma_substitute_keys_placeholder(keys.drop_first(), k, vars);
            assert(keys.contains(k) <==> keys.drop_first().contains(k)) by {
                if keys.contains(k) {
                    let m = choose|m: int| 0 <= m < keys.len() && keys[m] == k;
                    assert(m != 0);
                    assert(keys.drop_first()[m - 1] == k);
                }
                if keys.drop_first().contains(k) {
                    let m = choose|m: int| 0 <= m < keys.drop_first().len() && keys.drop_first()[m] == k;
                    assert(keys[m + 1] == k);
                }
            }
        }
    }
}

proof fn lemma_insert_in_order_contains(x: Seq<char>, s: Seq<Seq<char>>, y: Seq<char>)
    ensures
        insert_in_order(x, s).contains(y) <==> (y == x || s.contains(y)),
    decreases s.len(),
{
    if s.len() == 0 {
        assert(insert_in_order(x, s)[0] == x);
    } else if replace_before(x, s[0]) {
        let r = seq![x] + s;
        if s.contains(y) {
            let m = choose|m: int| 0 <= m < s.len() && s[m] == y;
            assert(r[m + 1] == y);
        }
        if r.contains(y) {
            let m = choose|m: int| 0 <= m < r.len() && r[m] == y;
            if m > 0 {
                assert(s[m - 1] == y);
            }
        }
        assert(r[0] == x);
    } else {
        let rest = s.drop_first();
        lemma_insert_in_order_contains(x, rest, y);
        let r = seq![s[0]] + insert_in_order(x, rest);
        assert(insert_in_order(x, s) == r);
        if r.contains(y) {
            let m = choose|m: int| 0 <= m < r.len() && r[m] == y;
            if m == 0 {
                assert(s[0] == y);
            } else {
                assert(insert_in_order(x, rest)[m - 1] == y);
                if rest.contains(y) {
                    let q = choose|q: int| 0 <= q < rest.len() && rest[q] == y;
                    assert(s[q + 1] == y);
                }
            }
        }
        if y == x || s.contains(y) {
            if y == x || rest.contains(y) {
                let m = choose|m: int| 0 <= m < insert_in_order(x, rest).len() && insert_in_order(x, rest)[m] == y;
                assert(r[m + 1] == y);
            } else {
                let m = choose|m: int| 0 <= m < s.len() && s[m] == y;
                if m > 0 {
                    assert(rest[m - 1] == y);
                }
                assert(r[0] == y);
            }
        }
    }
}

proof fn lemma_sort_for_replace_contains(s: Seq<Seq<char>>, y: Seq<char>)
    ensures
        sort_for_replace(s).contains(y) <==> s.contains(y),
    decreases s.len(),
{
    if s.len() > 0 {
        lemma_sort_for_replace_contains(s.drop_last(), y);
        lemma_insert_in_order_contains(s.last(), sort_for_replace(s.drop_last()), y);
        if s.contains(y) {
            let m = choose|m: int| 0 <= m < s.len() && s[m] == y;
            if m < s.len() - 1 {
                assert(s.drop_last()[m] == y);
            }
        }
        if s.drop_last().contains(y) {
            let m = choose|m: int| 0 <= m < s.drop_last().len() && s.drop_last()[m] == y;
            assert(s[m] == y);
        }
    } else {
        assert(sort_for_replace(s) =~= Seq::<Seq<char>>::empty());
    }
}

proof fn lemma_pair_keys_lookup(ps: Pairs, k: Seq<char>)
    ensures
        pair_keys(ps).contains(k) <==> lookup(ps, k) is Some,
    decreases ps.len(),
{
    if ps.len() > 0 {
        lemma_pair_keys_lookup(ps.drop_first(), k);
        assert(pair_keys(ps.drop_first()) =~= pair_keys(ps).drop_first());
        if pair_keys(ps).contains(k) {
            let m = choose|m: int| 0 <= m < pair_keys(ps).len() && pair_keys(ps)[m] == k;
            if m > 0 {
                assert(pair_keys(ps).drop_first()[m - 1] == k);
            }
        }
        if ps[0].0 == k {
            assert(pair_keys(ps)[0] == k);
        }
        if pair_keys(ps.drop_first()).contains(k) {
            let m = choose|m: int| 0 <= m < pair_keys(ps.drop_first()).len() && pair_keys(ps.drop_first())[m] == k;
            assert(pair_keys(ps)[m + 1] == k);
        }
    } else {
        assert(!pair_keys(ps).contains(k));
    }
}

/// `{{name}}` on its own gives back the value of the variable `name`, and
/// is left as written when there is no such variable; `name` is any name
/// without `{`, `}`, `$` or `:`, other than an internal (`__`) one or a
/// numbered URL (`url_` and digits), whose forms are read otherwise.
pub proof fn lemma_placeholder_gives_value(name: Seq<char>, vars: Pairs)
    requires
        plain_name(name),
        !is_internal_key(name),
        !numbered_url_name(name),
    ensures
        spec_replace_variables(placeholder(name), vars) == (match lookup(vars, name) {
            Some(v) => v,
            None => placeholder(name),
        }),
{
    let t0 = open_toks(placeholder(name));
    assert forall|j: int| 0 <= j < t0.len() implies #[trigger] match_at(Pass::EscapedSpecial, vars, t0, j) is None by {
        lemma_placeholder_early_passes(name, vars, Pass::EscapedSpecial, j);
    }
    lemma_apply_nomatch(Pass::EscapedSpecial, vars, t0);
    assert forall|j: int| 0 <= j < t0.len() implies #[trigger] match_at(Pass::UrlsJoin, vars, t0, j) is None by {
        lemma_placeholder_early_passes(name, vars, Pass::UrlsJoin, j);
    }
    lemma_apply_nomatch(Pass::UrlsJoin, vars, t0);
    assert forall|j: int| 0 <= j < t0.len() implies #[trigger] match_at(Pass::DynamicUrl, vars, t0, j) is None by {
        lemma_placeholder_early_passes(name, vars, Pass::DynamicUrl, j);
    }
    lemma_apply_nomatch(Pass::DynamicUrl, vars, t0);
    assert forall|j: int| 0 <= j < t0.len() implies #[trigger] match_at(Pass::JsonValue, vars, t0, j) is None by {
        lemma_placeholder_early_passes(name, vars, Pass::JsonValue, j);
    }
    lemma_apply_nomatch(Pass::JsonValue, vars, t0);
    assert forall|j: int| 0 <= j < t0.len() implies #[trigger] match_at(Pass::ShellValue, vars, t0, j) is None by {
        lemma_placeholder_early_passes(name, vars, Pass::ShellValue, j);
    }
    lemma_apply_nomatch(Pass::ShellValue, vars, t0);
    let keys = sort_for_replace(pair_keys(vars));
    lemma_escape_keys_placeholder(keys, name, vars);
    lemma_substitute_keys_placeholder(keys, name, vars);
    lemma_sort_for_replace_contains(pair_keys(vars), name);
    lemma_pair_keys_lookup(vars, name);
    lemma_render_open(placeholder(name));
    let last = seq![Tok::Val(value_or_empty(vars, name))];
    assert(last.drop_last() =~= Seq::<Tok>::empty());
    assert(render(Seq::<Tok>::empty()) =~= Seq::<char>::empty());
    assert(last.last() == Tok::Val(value_or_empty(vars, name)));
    assert(render(last) == render(last.drop_last()) + tok_text(last.last()));
    assert(render(last) =~= value_or_empty(vars, name));
}

// ---------------------------------------------------------------------
// Matches do not look back
// ---------------------------------------------------------------------

pub(crate) proof fn lemma_shift_run(x: Seq<Tok>, y: Seq<Tok>, m: int, cls: CharClass)
    requires
        x.len() <= m,
    ensures
        run_len(x + y, m, cls) == run_len(y, m - x.len(), cls),
    decreases x.len() + y.len() - m,
{
    if m < x.len() + y.len() {
        assert((x + y)[m] == y[m - x.len()]);
        lemma_shift_run(x, y, m + 1, cls);
    }
}

pub(crate) proof fn lemma_shift_basics(x: Seq<Tok>, y: Seq<Tok>)
    ensures
        forall|m: int, s: Seq<char>| x.len() <= m ==> #[trigger] lit_at(x + y, m, s) == lit_at(y, m - x.len(), s),
        forall|m: int| x.len() <= m ==> #[trigger] word_at(x + y, m) == word_at(y, m - x.len()),
        forall|m: int| x.len() <= m < x.len() + y.len() ==> #[trigger] (x + y)[m] == y[m - x.len()],
        forall|m: int, cls: CharClass|
            x.len() <= m ==> #[trigger] run_len(x + y, m, cls) == run_len(y, m - x.len(), cls),
        forall|m: int, n: nat|
            x.len() <= m && m - x.len() + n <= y.len() ==> #[trigger] run_text(x + y, m, n) == run_text(y, m - x.len(), n),
{
    let t = x + y;
    assert forall|m: int, s: Seq<char>| x.len() <= m implies #[trigger] lit_at(x + y, m, s) == lit_at(y, m - x.len(), s) by {
        if lit_at(t, m, s) {
            assert forall|k: int| 0 <= k < s.len() implies #[trigger] y[m - x.len() + k] == Tok::Ch(s[k]) by {
                assert(t[m + k] == Tok::Ch(s[k]));
            }
        }
        if lit_at(y, m - x.len(), s) {
            assert forall|k: int| 0 <= k < s.len() implies #[trigger] t[m + k] == Tok::Ch(s[k]) by {
                assert(y[m - x.len() + k] == Tok::Ch(s[k]));
            }
        }
    }
    assert forall|m: int, cls: CharClass| x.len() <= m implies #[trigger] run_len(x + y, m, cls) == run_len(
        y,
        m - x.len(),
        cls,
    ) by {
        lemma_shift_run(x, y, m, cls);
    }
    assert forall|m: int, n: nat| x.len() <= m && m - x.len() + n <= y.len() implies #[trigger] run_text(x + y, m, n)
        == run_text(y, m - x.len(), n) by {
        assert(run_text(x + y, m, n) =~= run_text(y, m - x.len(), n));
    }
}

proof fn lemma_shift_run_closed(
    x: Seq<Tok>,
    y: Seq<Tok>,
    m: int,
    opening: Seq<char>,
    cls: CharClass,
    min: nat,
    close: Seq<char>,
)
    requires
        x.len() <= m,
    ensures
        match_run_closed(x + y, m, opening, cls, min, close) == match_run_closed(y, m - x.len(), opening, cls, min, close),
        match_run_closed(y, m - x.len(), opening, cls, min, close) matches Some(n) ==> m - x.len() + n <= y.len()
            && n == opening.len() + run_len(y, m - x.len() + opening.len(), cls) + close.len(),
{
    lemma_shift_basics(x, y);
}

proof fn lemma_shift_digits_bounded(x: Seq<Tok>, y: Seq<Tok>, m: int, opening: Seq<char>)
    requires
        x.len() <= m,
    ensures
        match_digits_bounded(x + y, m, opening) == match_digits_bounded(y, m - x.len(), opening),
        match_digits_bounded(y, m - x.len(), opening) matches Some(n) ==> m - x.len() + n <= y.len() && n >= opening.len(),
{
    lemma_shift_basics(x, y);
    let j = m - x.len();
    if lit_at(y, j, opening) {
        let s = j + opening.len();
        let n0 = run_len(y, s, CharClass::Digit);
        lemma_run_len_facts(y, s, CharClass::Digit);
        if n0 >= 1 {
            let last = s + n0 - 1;
            assert(s <= last < s + n0);
            assert(0 <= last < y.len() && (y[last] matches Tok::Ch(c) && in_class(CharClass::Digit, c)));
        }
    }
}

proof fn lemma_shift_ident_closed(x: Seq<Tok>, y: Seq<Tok>, m: int, opening: Seq<char>, close: Seq<char>)
    requires
        x.len() <= m,
    ensures
        match_ident_closed(x + y, m, opening, close) == match_ident_closed(y, m - x.len(), opening, close),
        match_ident_closed(y, m - x.len(), opening, close) matches Some(n) ==> m - x.len() + n <= y.len() && n
            >= opening.len() + close.len(),
{
    lemma_shift_basics(x, y);
}

proof fn lemma_shift_two_forms(
    x: Seq<Tok>,
    y: Seq<Tok>,
    m: int,
    o1: Seq<char>,
    c1: Seq<char>,
    o2: Seq<char>,
    c2: Seq<char>,
    cls: CharClass,
    min: nat,
)
    requires
        x.len() <= m,
    ensures
        match_two_forms(x + y, m, o1, c1, o2, c2, cls, min) == match_two_forms(y, m - x.len(), o1, c1, o2, c2, cls, min),
        match_two_forms(y, m - x.len(), o1, c1, o2, c2, cls, min) matches Some((n, _)) ==> m - x.len() + n <= y.len(),
{
    lemma_shift_basics(x, y);
    lemma_shift_run_closed(x, y, m, o1, cls, min, c1);
    lemma_shift_run_closed(x, y, m, o2, cls, min, c2);
}

proof fn lemma_shift_modifier_name(x: Seq<Tok>, y: Seq<Tok>, m: int, o1: Seq<char>, o2: Seq<char>)
    requires
        x.len() <= m,
    ensures
        match_modifier_name(x + y, m, o1, o2) == match_modifier_name(y, m - x.len(), o1, o2),
        match_modifier_name(y, m - x.len(), o1, o2) matches Some((n, _)) ==> m - x.len() + n <= y.len(),
{
    lemma_shift_basics(x, y);
    lemma_shift_ident_closed(x, y, m, o1, "}}"@);
    lemma_shift_ident_closed(x, y, m, o2, "}"@);
}

/// What a pass finds at a place of `y` does not depend on what stands
/// before `y`.
pub(crate) proof fn lemma_match_shift(p: Pass, vars: Pairs, x: Seq<Tok>, y: Seq<Tok>, m: int)
    requires
        x.len() <= m < x.len() + y.len(),
    ensures
        match_at(p, vars, x + y, m) == match_at(p, vars, y, m - x.len()),
{
    match p {
        Pass::EscapedSpecial => {
            lemma_shift_basics(x, y);
            lemma_shift_run_closed(x, y, m, "$${"@, CharClass::NotCloseBrace, 1, "}"@);
            lemma_shift_digits_bounded(x, y, m, "$$url_"@);
        },
        Pass::UrlsJoin => {
            lemma_shift_two_forms(x, y, m, "{{urls_join:"@, "}}"@, "${urls_join:"@, "}"@, CharClass::NotCloseBrace, 0);
        },
        Pass::DynamicUrl => {
            lemma_shift_basics(x, y);
            lemma_shift_two_forms(x, y, m, "{{url_"@, "}}"@, "${url_"@, "}"@, CharClass::Digit, 1);
            lemma_shift_digits_bounded(x, y, m, "$url_"@);
        },
        Pass::JsonValue => {
            lemma_shift_modifier_name(x, y, m, "{{json:"@, "${json:"@);
        },
        Pass::ShellValue => {
            lemma_shift_modifier_name(x, y, m, "{{shell:"@, "${shell:"@);
        },
        Pass::Literal(pat, rep) => {
            lemma_shift_basics(x, y);
        },
    }
}

/// Token `i` can start no placeholder.
pub open spec fn quiet_at(t: Seq<Tok>, i: int) -> bool {
    t[i] != Tok::Ch('$') && t[i] != Tok::Ch('{')
}

pub(crate) proof fn lemma_lit_at_quiet(t: Seq<Tok>, i: int, s: Seq<char>)
    requires
        0 <= i < t.len(),
        quiet_at(t, i),
        s.len() > 0,
        s[0] == '$' || s[0] == '{',
    ensures
        !lit_at(t, i, s),
{
    if lit_at(t, i, s) {
        assert(t[i + 0] == Tok::Ch(s[0]));
    }
}

/// No pass matches at a quiet token.
pub(crate) proof fn lemma_no_match_at(p: Pass, vars: Pairs, t: Seq<Tok>, i: int)
    requires
        0 <= i < t.len(),
        quiet_at(t, i),
        marked_pass(p),
    ensures
        match_at(p, vars, t, i) is None,
{
    reveal_strlit("$${");
    reveal_strlit("$$url_");
    reveal_strlit("{{urls_join:");
    reveal_strlit("${urls_join:");
    reveal_strlit("{{url_");
    reveal_strlit("${url_");
    reveal_strlit("$url_");
    reveal_strlit("{{json:");
    reveal_strlit("${json:");
    reveal_strlit("{{shell:");
    reveal_strlit("${shell:");
    lemma_lit_at_quiet(t, i, "$${"@);
    lemma_lit_at_quiet(t, i, "$$url_"@);
    lemma_lit_at_quiet(t, i, "{{urls_join:"@);
    lemma_lit_at_quiet(t, i, "${urls_join:"@);
    lemma_lit_at_quiet(t, i, "{{url_"@);
    lemma_lit_at_quiet(t, i, "${url_"@);
    lemma_lit_at_quiet(t, i, "$url_"@);
    lemma_lit_at_quiet(t, i, "{{json:"@);
    lemma_lit_at_quiet(t, i, "${json:"@);
    lemma_lit_at_quiet(t, i, "{{shell:"@);
    lemma_lit_at_quiet(t, i, "${shell:"@);
    match p {
        Pass::Literal(pat, _) => {
            if pat.len() > 0 {
                lemma_lit_at_quiet(t, i, pat);
            }
        },
        _ => {},
    }
}


// ---------------------------------------------------------------------
// Matches before inert text
// ---------------------------------------------------------------------

/// No token of `t` is an open `$`.
pub open spec fn no_open_dollar(t: Seq<Tok>) -> bool {
    forall|i: int| 0 <= i < t.len() ==> #[trigger] t[i] != Tok::Ch('$')
}

/// Text that can neither start nor close a placeholder: no `$`, `{` or `}`.
pub open spec fn inert_text(c: Seq<char>) -> bool {
    !c.contains('$') && !c.contains('{') && !c.contains('}')
}

/// The fixed text of a pass starts with `$` or ends with `}`.
pub open spec fn closed_pass(p: Pass) -> bool {
    match p {
        Pass::Literal(pat, _) => pat.len() > 0 ==> (pat[0] == '$' || pat[pat.len() - 1] == '}'),
        _ => true,
    }
}

pub(crate) proof fn lemma_extend_basics(x: Seq<Tok>, c: Seq<char>)
    requires
        inert_text(c),
    ensures
        forall|m: int| 0 <= m < x.len() ==> #[trigger] (x + open_toks(c))[m] == x[m],
        forall|m: int, s: Seq<char>| #[trigger] lit_at(x, m, s) ==> lit_at(x + open_toks(c), m, s),
        forall|m: int, s: Seq<char>| #[trigger] lit_at(x + open_toks(c), m, s) && m + s.len() <= x.len() ==> lit_at(x, m, s),
        forall|m: int, s: Seq<char>|
            #[trigger] lit_at(x + open_toks(c), m, s) && s.len() > 0 && s[s.len() - 1] == '}' ==> m + s.len() <= x.len(),
        forall|m: int, s: Seq<char>| #[trigger] lit_at(x + open_toks(c), m, s) && s.len() > 0 && s[0] == '}' ==> m < x.len(),
        forall|m: int, n: nat| 0 <= m && m + n <= x.len() ==> #[trigger] run_text(x + open_toks(c), m, n) == run_text(x, m, n),
{
    let y = open_toks(c);
    let t = x + y;
    assert forall|m: int, s: Seq<char>| #[trigger] lit_at(x, m, s) implies lit_at(t, m, s) by {
        assert forall|k: int| 0 <= k < s.len() implies #[trigger] t[m + k] == Tok::Ch(s[k]) by {
            assert(x[m + k] == Tok::Ch(s[k]));
        }
    }
    assert forall|m: int, s: Seq<char>| #[trigger] lit_at(t, m, s) && m + s.len() <= x.len() implies lit_at(x, m, s) by {
        assert forall|k: int| 0 <= k < s.len() implies #[trigger] x[m + k] == Tok::Ch(s[k]) by {
            assert(t[m + k] == Tok::Ch(s[k]));
        }
    }
    assert forall|m: int, s: Seq<char>| #[trigger] lit_at(t, m, s) && s.len() > 0 && s[s.len() - 1] == '}' implies m
        + s.len() <= x.len() by {
        let q = m + s.len() - 1;
        assert(t[m + (s.len() - 1)] == Tok::Ch(s[s.len() - 1]));
        if q >= x.len() {
            assert(t[q] == y[q - x.len()]);
            assert(c.contains(c[q - x.len()]));
        }
    }
    assert forall|m: int, s: Seq<char>| #[trigger] lit_at(t, m, s) && s.len() > 0 && s[0] == '}' implies m < x.len() by {
        assert(t[m + 0] == Tok::Ch(s[0]));
        if m >= x.len() {
            assert(t[m] == y[m - x.len()]);
            assert(c.contains(c[m - x.len()]));
        }
    }
    assert forall|m: int, n: nat| 0 <= m && m + n <= x.len() implies #[trigger] run_text(t, m, n) == run_text(x, m, n) by {
        assert(run_text(t, m, n) =~= run_text(x, m, n));
    }
}

/// A run in `x` is the same run in `x` followed by other tokens, unless
/// it reaches the end of `x`.
pub(crate) proof fn lemma_extend_run(x: Seq<Tok>, y: Seq<Tok>, m: int, cls: CharClass)
    requires
        0 <= m <= x.len(),
    ensures
        m + run_len(x, m, cls) <= x.len(),
        run_len(x + y, m, cls) >= run_len(x, m, cls),
        m + run_len(x, m, cls) < x.len() ==> run_len(x + y, m, cls) == run_len(x, m, cls),
    decreases x.len() - m,
{
    if m < x.len() {
        assert((x + y)[m] == x[m]);
        lemma_extend_run(x, y, m + 1, cls);
    }
}

proof fn lemma_extend_run_closed(
    x: Seq<Tok>,
    c: Seq<char>,
    i: int,
    opening: Seq<char>,
    cls: CharClass,
    min: nat,
    close: Seq<char>,
)
    requires
        inert_text(c),
        0 <= i < x.len(),
        close.len() > 0,
        close[0] == '}',
        close[close.len() - 1] == '}',
    ensures
        match_run_closed(x + open_toks(c), i, opening, cls, min, close) == match_run_closed(x, i, opening, cls, min, close),
        match_run_closed(x, i, opening, cls, min, close) matches Some(n) ==> i + n <= x.len()
            && n == opening.len() + run_len(x, i + opening.len(), cls) + close.len(),
{
    lemma_extend_basics(x, c);
    let t = x + open_toks(c);
    if lit_at(x, i, opening) {
        let s0 = i + opening.len();
        lemma_extend_run(x, open_toks(c), s0, cls);
        let nx = run_len(x, s0, cls);
        let nt = run_len(t, s0, cls);
        if s0 + nx < x.len() {
            assert(nt == nx);
        } else {
            assert(!lit_at(x, s0 + nx, close));
            assert(!lit_at(t, s0 + nt, close));
        }
    } else if lit_at(t, i, opening) {
        let s0 = i + opening.len();
        let nt = run_len(t, s0, cls);
        assert(!lit_at(t, s0 + nt, close));
    }
}

proof fn lemma_extend_ident_closed(x: Seq<Tok>, c: Seq<char>, i: int, opening: Seq<char>, close: Seq<char>)
    requires
        inert_text(c),
        0 <= i < x.len(),
        close.len() > 0,
        close[0] == '}',
        close[close.len() - 1] == '}',
    ensures
        match_ident_closed(x + open_toks(c), i, opening, close) == match_ident_closed(x, i, opening, close),
        match_ident_closed(x, i, opening, close) matches Some(n) ==> i + n <= x.len() && n >= opening.len() + close.len(),
{
    lemma_extend_basics(x, c);
    let t = x + open_toks(c);
    let s = i + opening.len();
    if lit_at(x, i, opening) {
        if s < x.len() {
            lemma_extend_run(x, open_toks(c), s + 1, CharClass::IdentRest);
            let nx = 1 + run_len(x, s + 1, CharClass::IdentRest);
            let nt = 1 + run_len(t, s + 1, CharClass::IdentRest);
            if s + nx < x.len() {
                assert(nt == nx);
            } else {
                assert(!lit_at(x, s + nx, close));
                assert(!lit_at(t, s + nt, close));
            }
        } else {
            let nt = 1 + run_len(t, s + 1, CharClass::IdentRest);
            assert(!lit_at(t, s + nt, close));
        }
    } else if lit_at(t, i, opening) {
        let nt = 1 + run_len(t, s + 1, CharClass::IdentRest);
        assert(!lit_at(t, s + nt, close));
    }
}

proof fn lemma_extend_dollar(x: Seq<Tok>, c: Seq<char>, i: int, opening: Seq<char>)
    requires
        inert_text(c),
        no_open_dollar(x),
        0 <= i < x.len(),
        opening.len() > 0,
        opening[0] == '$',
    ensures
        !lit_at(x, i, opening),
        !lit_at(x + open_toks(c), i, opening),
{
    lemma_extend_basics(x, c);
    assert(x[i] != Tok::Ch('$'));
    if lit_at(x, i, opening) {
        assert(x[i + 0] == Tok::Ch(opening[0]));
    }
    if lit_at(x + open_toks(c), i, opening) {
        assert((x + open_toks(c))[i + 0] == Tok::Ch(opening[0]));
    }
}

proof fn lemma_close_strings()
    ensures
        "}}"@.len() == 2 && "}}"@[0] == '}' && "}}"@[1] == '}',
        "}"@.len() == 1 && "}"@[0] == '}',
        "$$url_"@.len() > 0 && "$$url_"@[0] == '$',
        "$url_"@.len() > 0 && "$url_"@[0] == '$',
{
    reveal_strlit("}}");
    reveal_strlit("}");
    reveal_strlit("$$url_");
    reveal_strlit("$url_");
}

/// What a pass finds at a place of `x` does not change when inert text
/// follows `x`, and it ends within `x`.
pub(crate) proof fn lemma_match_extend(p: Pass, vars: Pairs, x: Seq<Tok>, c: Seq<char>, i: int)
    requires
        inert_text(c),
        no_open_dollar(x),
        closed_pass(p),
        0 <= i < x.len(),
    ensures
        match_at(p, vars, x + open_toks(c), i) == match_at(p, vars, x, i),
        match_at(p, vars, x, i) matches Some((n, _)) ==> i + n <= x.len(),
{
    lemma_close_strings();
    lemma_extend_basics(x, c);
    match p {
        Pass::EscapedSpecial => {
            lemma_extend_run_closed(x, c, i, "$${"@, CharClass::NotCloseBrace, 1, "}"@);
            lemma_extend_dollar(x, c, i, "$$url_"@);
        },
        Pass::UrlsJoin => {
            lemma_extend_run_closed(x, c, i, "{{urls_join:"@, CharClass::NotCloseBrace, 0, "}}"@);
            lemma_extend_run_closed(x, c, i, "${urls_join:"@, CharClass::NotCloseBrace, 0, "}"@);
        },
        Pass::DynamicUrl => {
            lemma_extend_run_closed(x, c, i, "{{url_"@, CharClass::Digit, 1, "}}"@);
            lemma_extend_run_closed(x, c, i, "${url_"@, CharClass::Digit, 1, "}"@);
            lemma_extend_dollar(x, c, i, "$url_"@);
        },
        Pass::JsonValue => {
            lemma_extend_ident_closed(x, c, i, "{{json:"@, "}}"@);
            lemma_extend_ident_closed(x, c, i, "${json:"@, "}"@);
        },
        Pass::ShellValue => {
            lemma_extend_ident_closed(x, c, i, "{{shell:"@, "}}"@);
            lemma_extend_ident_closed(x, c, i, "${shell:"@, "}"@);
        },
        Pass::Literal(pat, rep) => {
            if pat.len() > 0 && pat[0] == '$' {
                lemma_extend_dollar(x, c, i, pat);
            }
        },
    }
}

/// A pass keeps the absence of an open `$`.
pub(crate) proof fn lemma_apply_keeps_no_dollar(p: Pass, vars: Pairs, t: Seq<Tok>, i: int)
    requires
        no_open_dollar(t),
        0 <= i,
    ensures
        no_open_dollar(apply_from(p, vars, t, i)),
    decreases t.len() - i,
{
    if i < t.len() {
        match match_at(p, vars, t, i) {
            Some((n, v)) => {
                if n >= 1 && i + n <= t.len() {
                    lemma_apply_keeps_no_dollar(p, vars, t, i + n);
                    let r = apply_from(p, vars, t, i + n);
                    assert forall|k: int| 0 <= k < 1 + r.len() implies #[trigger] (seq![Tok::Val(v)] + r)[k] != Tok::Ch('$') by {
                        if k > 0 {
                            assert((seq![Tok::Val(v)] + r)[k] == r[k - 1]);
                        }
                    }
                } else {
                    lemma_apply_keeps_no_dollar(p, vars, t, i + 1);
                    let r = apply_from(p, vars, t, i + 1);
                    assert forall|k: int| 0 <= k < 1 + r.len() implies #[trigger] (seq![t[i]] + r)[k] != Tok::Ch('$') by {
                        if k > 0 {
                            assert((seq![t[i]] + r)[k] == r[k - 1]);
                        }
                    }
                }
            },
            None => {
                lemma_apply_keeps_no_dollar(p, vars, t, i + 1);
                let r = apply_from(p, vars, t, i + 1);
                assert forall|k: int| 0 <= k < 1 + r.len() implies #[trigger] (seq![t[i]] + r)[k] != Tok::Ch('$') by {
                    if k > 0 {
                        assert((seq![t[i]] + r)[k] == r[k - 1]);
                    }
                }
            },
        }
    }
}

} // verus!
