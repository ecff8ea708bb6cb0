//! Templates in context: how the text around a placeholder comes through
//! substitution. Text that can start no placeholder is kept as it is in
//! front of the rest, and text that can neither start nor close one is
//! kept as it is after a part without `$`.
use vstd::prelude::*;
use crate::strmap::{Pairs, lookup, pair_keys};
use crate::template::{
    Pass, Tok, apply, apply_from, escape_keys, is_internal_key, marked_pass, match_at, open_toks,
    render, sort_for_replace, spec_replace_variables, substitute_keys, template_tokens,
    value_or_empty, lemma_apply_plain, lemma_key_patterns_marked, lemma_render_open,
    lemma_replace_is_render, no_open_marker, lemma_match_shift, lemma_no_match_at, closed_pass, inert_text,
    no_open_dollar, lemma_match_extend, lemma_apply_keeps_no_dollar, placeholder, plain_name, numbered_url_name,
    lemma_placeholder_gives_value,
};

verus! {

// ---------------------------------------------------------------------
// A pass over two parts
// ---------------------------------------------------------------------

proof fn lemma_apply_from_tail(p: Pass, vars: Pairs, x: Seq<Tok>, y: Seq<Tok>, j: int)
    requires
        0 <= j <= y.len(),
        forall|m: int| x.len() <= m < x.len() + y.len() ==> #[trigger] match_at(p, vars, x + y, m) == match_at(p, vars, y, m - x.len()),
    ensures
        apply_from(p, vars, x + y, x.len() + j) == apply_from(p, vars, y, j),
    decreases y.len() - j,
{
    if j < y.len() {
        let t = x + y;
        assert(t[x.len() + j] == y[j]);
        assert(match_at(p, vars, t, x.len() + j) == match_at(p, vars, y, j));
        match match_at(p, vars, y, j) {
            Some((n, v)) => {
                if n >= 1 && j + n <= y.len() {
                    lemma_apply_from_tail(p, vars, x, y, j + n);
                } else {
                    lemma_apply_from_tail(p, vars, x, y, j + 1);
                }
            },
            None => {
                lemma_apply_from_tail(p, vars, x, y, j + 1);
            },
        }
    }
}

proof fn lemma_apply_from_head(p: Pass, vars: Pairs, x: Seq<Tok>, y: Seq<Tok>, i: int)
    requires
        0 <= i <= x.len(),
        forall|m: int| 0 <= m < x.len() ==> #[trigger] match_at(p, vars, x + y, m) == match_at(p, vars, x, m),
        forall|m: int| 0 <= m < x.len() ==> (#[trigger] match_at(p, vars, x, m) matches Some((n, _)) ==> m + n <= x.len()),
        forall|m: int| x.len() <= m < x.len() + y.len() ==> #[trigger] match_at(p, vars, x + y, m) == match_at(p, vars, y, m - x.len()),
    ensures
        apply_from(p, vars, x + y, i) == apply_from(p, vars, x, i) + apply_from(p, vars, y, 0),
    decreases x.len() - i,
{
    let t = x + y;
    if i == x.len() {
        lemma_apply_from_tail(p, vars, x, y, 0);
        assert(apply_from(p, vars, x, i) =~= Seq::<Tok>::empty());
        assert(Seq::<Tok>::empty() + apply_from(p, vars, y, 0) =~= apply_from(p, vars, y, 0));
    } else {
        assert(t[i] == x[i]);
        assert(match_at(p, vars, t, i) == match_at(p, vars, x, i));
        match match_at(p, vars, x, i) {
            Some((n, v)) => {
                if n >= 1 {
                    lemma_apply_from_head(p, vars, x, y, i + n);
                    assert(seq![Tok::Val(v)] + (apply_from(p, vars, x, i + n) + apply_from(p, vars, y, 0))
                        =~= (seq![Tok::Val(v)] + apply_from(p, vars, x, i + n)) + apply_from(p, vars, y, 0));
                } else {
                    lemma_apply_from_head(p, vars, x, y, i + 1);
                    assert(seq![x[i]] + (apply_from(p, vars, x, i + 1) + apply_from(p, vars, y, 0))
                        =~= (seq![x[i]] + apply_from(p, vars, x, i + 1)) + apply_from(p, vars, y, 0));
                }
            },
            None => {
                lemma_apply_from_head(p, vars, x, y, i + 1);
                assert(seq![x[i]] + (apply_from(p, vars, x, i + 1) + apply_from(p, vars, y, 0))
                    =~= (seq![x[i]] + apply_from(p, vars, x, i + 1)) + apply_from(p, vars, y, 0));
            },
        }
    }
}

/// A pass over `x + y` is the pass over each part when every match that
/// starts in `x` is the same there and ends in it, and every match that
/// starts in `y` is the same as in `y` alone.
proof fn lemma_apply_frame(p: Pass, vars: Pairs, x: Seq<Tok>, y: Seq<Tok>)
    requires
        forall|m: int| 0 <= m < x.len() ==> #[trigger] match_at(p, vars, x + y, m) == match_at(p, vars, x, m),
        forall|m: int| 0 <= m < x.len() ==> (#[trigger] match_at(p, vars, x, m) matches Some((n, _)) ==> m + n <= x.len()),
        forall|m: int| x.len() <= m < x.len() + y.len() ==> #[trigger] match_at(p, vars, x + y, m) == match_at(p, vars, y, m - x.len()),
    ensures
        apply(p, vars, x + y) == apply(p, vars, x) + apply(p, vars, y),
{
    lemma_apply_from_head(p, vars, x, y, 0);
}

proof fn lemma_render_concat(x: Seq<Tok>, y: Seq<Tok>)
    ensures
        render(x + y) == render(x) + render(y),
    decreases y.len(),
{
    if y.len() == 0 {
        assert(x + y =~= x);
        assert(render(x) + render(y) =~= render(x));
    } else {
        lemma_render_concat(x, y.drop_last());
        assert((x + y).drop_last() =~= x + y.drop_last());
        assert((x + y).last() == y.last());
    }
}

proof fn lemma_open_concat(a: Seq<char>, b: Seq<char>)
    ensures
        open_toks(a + b) == open_toks(a) + open_toks(b),
{
    assert(open_toks(a + b) =~= open_toks(a) + open_toks(b));
}

/// A pass over quiet tokens followed by anything leaves the quiet tokens
/// in front.
proof fn lemma_apply_after_quiet(p: Pass, vars: Pairs, a: Seq<Tok>, t: Seq<Tok>)
    requires
        no_open_marker(a),
        marked_pass(p),
    ensures
        apply(p, vars, a + t) == a + apply(p, vars, t),
{
    let whole = a + t;
    assert forall|m: int| 0 <= m < a.len() implies #[trigger] match_at(p, vars, a + t, m) == match_at(p, vars, a, m) by {
        assert(whole[m] == a[m]);
        lemma_no_match_at(p, vars, whole, m);
        lemma_no_match_at(p, vars, a, m);
    }
    assert forall|m: int| 0 <= m < a.len() implies (#[trigger] match_at(p, vars, a, m) matches Some((n, _)) ==> m + n
        <= a.len()) by {
        lemma_no_match_at(p, vars, a, m);
    }
    assert forall|m: int| a.len() <= m < a.len() + t.len() implies #[trigger] match_at(p, vars, a + t, m) == match_at(
        p,
        vars,
        t,
        m - a.len(),
    ) by {
        lemma_match_shift(p, vars, a, t, m);
    }
    lemma_apply_frame(p, vars, a, t);
    lemma_apply_plain(p, vars, a);
}

proof fn lemma_escape_keys_after_quiet(keys: Seq<Seq<char>>, a: Seq<Tok>, t: Seq<Tok>, vars: Pairs)
    requires
        no_open_marker(a),
    ensures
        escape_keys(keys, a + t, vars) == a + escape_keys(keys, t, vars),
    decreases keys.len(),
{
    if keys.len() > 0 {
        let k = keys[0];
        lemma_key_patterns_marked(k, seq![]);
        if is_internal_key(k) {
            lemma_escape_keys_after_quiet(keys.drop_first(), a, t, vars);
        } else {
            let p1 = Pass::Literal("$$"@ + k, "$"@ + k);
            let p2 = Pass::Literal("$${"@ + k + "}"@, "${"@ + k + "}"@);
            lemma_apply_after_quiet(p1, vars, a, t);
            lemma_apply_after_quiet(p2, vars, a, apply(p1, vars, t));
            lemma_escape_keys_after_quiet(keys.drop_first(), a, apply(p2, vars, apply(p1, vars, t)), vars);
        }
    }
}

proof fn lemma_substitute_keys_after_quiet(keys: Seq<Seq<char>>, a: Seq<Tok>, t: Seq<Tok>, vars: Pairs)
    requires
        no_open_marker(a),
    ensures
        substitute_keys(keys, a + t, vars) == a + substitute_keys(keys, t, vars),
    decreases keys.len(),
{
    if keys.len() > 0 {
        let k = keys[0];
        let v = value_or_empty(vars, k);
        lemma_key_patterns_marked(k, v);
        if is_internal_key(k) {
            lemma_substitute_keys_after_quiet(keys.drop_first(), a, t, vars);
        } else {
            let p1 = Pass::Literal("{{"@ + k + "}}"@, v);
            let p2 = Pass::Literal("${"@ + k + "}"@, v);
            let p3 = Pass::Literal("$"@ + k, v);
            let t1 = apply(p1, vars, t);
            let t2 = apply(p2, vars, t1);
            lemma_apply_after_quiet(p1, vars, a, t);
            lemma_apply_after_quiet(p2, vars, a, t1);
            lemma_apply_after_quiet(p3, vars, a, t2);
            lemma_substitute_keys_after_quiet(keys.drop_first(), a, apply(p3, vars, t2), vars);
        }
    }
}

/// Text in front of a template that holds neither `$` nor `{` (so no
/// placeholder can start in it) comes through substitution unchanged,
/// and the rest is filled in as on its own.
pub proof fn lemma_plain_text_in_front(front: Seq<char>, rest: Seq<char>, vars: Pairs)
    requires
        !front.contains('$'),
        !front.contains('{'),
    ensures
        spec_replace_variables(front + rest, vars) == front + spec_replace_variables(rest, vars),
{
    let a = open_toks(front);
    assert forall|i: int| 0 <= i < a.len() implies #[trigger] a[i] != Tok::Ch('$') && a[i] != Tok::Ch('{') by {
        assert(front[i] != '$' && front[i] != '{');
    }
    let t0 = open_toks(rest);
    lemma_open_concat(front, rest);
    lemma_apply_after_quiet(Pass::EscapedSpecial, vars, a, t0);
    let t1 = apply(Pass::EscapedSpecial, vars, t0);
    lemma_apply_after_quiet(Pass::UrlsJoin, vars, a, t1);
    let t2 = apply(Pass::UrlsJoin, vars, t1);
    lemma_apply_after_quiet(Pass::DynamicUrl, vars, a, t2);
    let t3 = apply(Pass::DynamicUrl, vars, t2);
    lemma_apply_after_quiet(Pass::JsonValue, vars, a, t3);
    let t4 = apply(Pass::JsonValue, vars, t3);
    lemma_apply_after_quiet(Pass::ShellValue, vars, a, t4);
    let t5 = apply(Pass::ShellValue, vars, t4);
    let keys = sort_for_replace(pair_keys(vars));
    lemma_escape_keys_after_quiet(keys, a, t5, vars);
    lemma_substitute_keys_after_quiet(keys, a, escape_keys(keys, t5, vars), vars);
    lemma_replace_is_render(front + rest, vars);
    lemma_replace_is_render(rest, vars);
    assert(template_tokens(front + rest, vars) == a + template_tokens(rest, vars));
    lemma_render_concat(a, template_tokens(rest, vars));
    lemma_render_open(front);
}


// ---------------------------------------------------------------------
// Text behind
// ---------------------------------------------------------------------

proof fn lemma_key_patterns_closed(k: Seq<char>, v: Seq<char>)
    ensures
        closed_pass(Pass::Literal("$$"@ + k, "$"@ + k)),
        closed_pass(Pass::Literal("$${"@ + k + "}"@, "${"@ + k + "}"@)),
        closed_pass(Pass::Literal("{{"@ + k + "}}"@, v)),
        closed_pass(Pass::Literal("${"@ + k + "}"@, v)),
        closed_pass(Pass::Literal("$"@ + k, v)),
{
    reveal_strlit("$$");
    reveal_strlit("$${");
    reveal_strlit("{{");
    reveal_strlit("}}");
    reveal_strlit("${");
    reveal_strlit("$");
    assert(("$$"@ + k)[0] == '$');
    assert(("$${"@ + k + "}"@)[0] == '$');
    let pat = "{{"@ + k + "}}"@;
    assert(pat[pat.len() - 1] == "}}"@[1]);
    assert(("${"@ + k + "}"@)[0] == '$');
    assert(("$"@ + k)[0] == '$');
}

/// A pass over tokens without an open `$` followed by inert text leaves
/// the inert text behind.
proof fn lemma_apply_before_inert(p: Pass, vars: Pairs, x: Seq<Tok>, c: Seq<char>)
    requires
        inert_text(c),
        no_open_dollar(x),
        closed_pass(p),
        marked_pass(p),
    ensures
        apply(p, vars, x + open_toks(c)) == apply(p, vars, x) + open_toks(c),
{
    let y = open_toks(c);
    let t = x + y;
    assert forall|m: int| 0 <= m < x.len() implies #[trigger] match_at(p, vars, x + y, m) == match_at(p, vars, x, m) by {
        lemma_match_extend(p, vars, x, c, m);
    }
    assert forall|m: int| 0 <= m < x.len() implies (#[trigger] match_at(p, vars, x, m) matches Some((n, _)) ==> m + n
        <= x.len()) by {
        lemma_match_extend(p, vars, x, c, m);
    }
    assert forall|m: int| x.len() <= m < x.len() + y.len() implies #[trigger] match_at(p, vars, x + y, m) == match_at(
        p,
        vars,
        y,
        m - x.len(),
    ) by {
        let q = m - x.len();
        assert(t[m] == y[q]);
        assert(c.contains(c[q]));
        lemma_no_match_at(p, vars, t, m);
        lemma_no_match_at(p, vars, y, q);
    }
    lemma_apply_frame(p, vars, x, y);
    assert forall|i: int| 0 <= i < y.len() implies #[trigger] y[i] != Tok::Ch('$') && y[i] != Tok::Ch('{') by {
        assert(c.contains(c[i]));
    }
    lemma_apply_plain(p, vars, y);
}

proof fn lemma_apply_before_inert_kept(p: Pass, vars: Pairs, x: Seq<Tok>, c: Seq<char>)
    requires
        inert_text(c),
        no_open_dollar(x),
        closed_pass(p),
        marked_pass(p),
    ensures
        apply(p, vars, x + open_toks(c)) == apply(p, vars, x) + open_toks(c),
        no_open_dollar(apply(p, vars, x)),
{
    lemma_apply_before_inert(p, vars, x, c);
    lemma_apply_keeps_no_dollar(p, vars, x, 0);
}

proof fn lemma_escape_keys_before_inert(keys: Seq<Seq<char>>, x: Seq<Tok>, c: Seq<char>, vars: Pairs)
    requires
        inert_text(c),
        no_open_dollar(x),
    ensures
        escape_keys(keys, x + open_toks(c), vars) == escape_keys(keys, x, vars) + open_toks(c),
        no_open_dollar(escape_keys(keys, x, vars)),
    decreases keys.len(),
{
    if keys.len() == 0 {
    } else {
        let k = keys[0];
        lemma_key_patterns_marked(k, seq![]);
        lemma_key_patterns_closed(k, seq![]);
        if is_internal_key(k) {
            lemma_escape_keys_before_inert(keys.drop_first(), x, c, vars);
        } else {
            let p1 = Pass::Literal("$$"@ + k, "$"@ + k);
            let p2 = Pass::Literal("$${"@ + k + "}"@, "${"@ + k + "}"@);
            lemma_apply_before_inert_kept(p1, vars, x, c);
            let x1 = apply(p1, vars, x);
            lemma_apply_before_inert_kept(p2, vars, x1, c);
            lemma_escape_keys_before_inert(keys.drop_first(), apply(p2, vars, x1), c, vars);
        }
    }
}

proof fn lemma_substitute_keys_before_inert(keys: Seq<Seq<char>>, x: Seq<Tok>, c: Seq<char>, vars: Pairs)
    requires
        inert_text(c),
        no_open_dollar(x),
    ensures
        substitute_keys(keys, x + open_toks(c), vars) == substitute_keys(keys, x, vars) + open_toks(c),
    decreases keys.len(),
{
    if keys.len() > 0 {
        let k = keys[0];
        let v = value_or_empty(vars, k);
        lemma_key_patterns_marked(k, v);
        lemma_key_patterns_closed(k, v);
        if is_internal_key(k) {
            lemma_substitute_keys_before_inert(keys.drop_first(), x, c, vars);
        } else {
            let p1 = Pass::Literal("{{"@ + k + "}}"@, v);
            let p2 = Pass::Literal("${"@ + k + "}"@, v);
            let p3 = Pass::Literal("$"@ + k, v);
            lemma_apply_before_inert_kept(p1, vars, x, c);
            let x1 = apply(p1, vars, x);
            lemma_apply_before_inert_kept(p2, vars, x1, c);
            let x2 = apply(p2, vars, x1);
            lemma_apply_before_inert_kept(p3, vars, x2, c);
            lemma_substitute_keys_before_inert(keys.drop_first(), apply(p3, vars, x2), c, vars);
        }
    }
}

/// Text behind a template without `$`, when the text holds no `$`, `{`
/// or `}` (so no placeholder can start, reach into or close in it),
/// comes through substitution unchanged, and the template in front is
/// filled in as on its own.
pub proof fn lemma_plain_text_behind(front: Seq<char>, back: Seq<char>, vars: Pairs)
    requires
        !front.contains('$'),
        !back.contains('$'),
        !back.contains('{'),
        !back.contains('}'),
    ensures
        spec_replace_variables(front + back, vars) == spec_replace_variables(front, vars) + back,
{
    let x = open_toks(front);
    assert forall|i: int| 0 <= i < x.len() implies #[trigger] x[i] != Tok::Ch('$') by {
        assert(front[i] != '$');
    }
    lemma_open_concat(front, back);
    lemma_apply_before_inert_kept(Pass::EscapedSpecial, vars, x, back);
    let x1 = apply(Pass::EscapedSpecial, vars, x);
    lemma_apply_before_inert_kept(Pass::UrlsJoin, vars, x1, back);
    let x2 = apply(Pass::UrlsJoin, vars, x1);
    lemma_apply_before_inert_kept(Pass::DynamicUrl, vars, x2, back);
    let x3 = apply(Pass::DynamicUrl, vars, x2);
    lemma_apply_before_inert_kept(Pass::JsonValue, vars, x3, back);
    let x4 = apply(Pass::JsonValue, vars, x3);
    lemma_apply_before_inert_kept(Pass::ShellValue, vars, x4, back);
    let x5 = apply(Pass::ShellValue, vars, x4);
    let keys = sort_for_replace(pair_keys(vars));
    lemma_escape_keys_before_inert(keys, x5, back, vars);
    lemma_substitute_keys_before_inert(keys, escape_keys(keys, x5, vars), back, vars);
    lemma_replace_is_render(front + back, vars);
    lemma_replace_is_render(front, vars);
    assert(template_tokens(front + back, vars) == template_tokens(front, vars) + open_toks(back));
    lemma_render_concat(template_tokens(front, vars), open_toks(back));
    lemma_render_open(back);
}


/// `{{name}}` between plain text is filled in on its own: the text in
/// front (no `$` or `{`) and the text behind (no `$`, `{` or `}`) stay as
/// they are, and `{{name}}` gives the variable's value, or stays as
/// written when there is no such variable.
pub proof fn lemma_placeholder_in_text(front: Seq<char>, name: Seq<char>, back: Seq<char>, vars: Pairs)
    requires
        !front.contains('$'),
        !front.contains('{'),
        !back.contains('$'),
        !back.contains('{'),
        !back.contains('}'),
        plain_name(name),
        !is_internal_key(name),
        !numbered_url_name(name),
    ensures
        spec_replace_variables(front + placeholder(name) + back, vars) == front + (match lookup(vars, name) {
            Some(v) => v,
            None => placeholder(name),
        }) + back,
{
    reveal_strlit("{{");
    reveal_strlit("}}");
    let ph = placeholder(name);
    assert(!ph.contains('$')) by {
        if ph.contains('$') {
            let j = choose|j: int| 0 <= j < ph.len() && ph[j] == '$';
            if 2 <= j < name.len() + 2 {
                assert(ph[j] == name[j - 2]);
                assert(name.contains(name[j - 2]));
            }
        }
    }
    assert(front + ph + back == front + (ph + back));
    lemma_plain_text_in_front(front, ph + back, vars);
    lemma_plain_text_behind(ph, back, vars);
    lemma_placeholder_gives_value(name, vars);
    let r = match lookup(vars, name) {
        Some(v) => v,
        None => ph,
    };
    assert(front + (r + back) == front + r + back);
}

} // verus!
