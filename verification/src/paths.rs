//! Unix paths as character sequences: joining, and the component view
//! that `std::path::Path` compares and walks.
use vstd::prelude::*;
use crate::text::{chars_of, chars_eq_str, concat, extend_chars, string_of, views};

verus! {

/// `Path::join` on Unix: an absolute `rel` replaces `base`; otherwise
/// `rel` is appended, with a `/` in between unless `base` is empty or
/// already ends with one.
pub open spec fn path_join(base: Seq<char>, rel: Seq<char>) -> Seq<char> {
    if rel.len() > 0 && rel[0] == '/' {
        rel
    } else if base.len() == 0 {
        rel
    } else if base.last() == '/' {
        base + rel
    } else {
        base + seq!['/'] + rel
    }
}

/// `Path::new(base).join(rel)`, as text.
pub fn join_path(base: &str, rel: &str) -> (r: String)
    ensures
        r@ == path_join(base@, rel@),
{
    let b = chars_of(base);
    let rl = chars_of(rel);
    let out: Vec<char> = if rl.len() > 0 && rl[0] == '/' {
        rl
    } else if b.len() == 0 {
        rl
    } else if b[b.len() - 1] == '/' {
        concat(&b, &rl)
    } else {
        let mut o = b.clone();
        o.push('/');
        extend_chars(&mut o, &rl);
        o
    };
    string_of(&out)
}

/// The pieces of `s` between slashes, empty ones included (`"/a//b"`
/// gives `""`, `"a"`, `""`, `"b"`).
pub open spec fn split_slash(s: Seq<char>) -> Seq<Seq<char>>
    decreases s.len(),
{
    if s.len() == 0 {
        seq![Seq::<char>::empty()]
    } else {
        let prev = split_slash(s.drop_last());
        if s.last() == '/' {
            prev.push(Seq::<char>::empty())
        } else {
            prev.update(prev.len() - 1, prev.last().push(s.last()))
        }
    }
}

/// A piece that names something: not empty and not `.`.
pub open spec fn is_component(piece: Seq<char>) -> bool {
    piece.len() > 0 && piece != seq!['.']
}

/// The pieces of `pieces` that name something, in order.
pub open spec fn keep_components(pieces: Seq<Seq<char>>) -> Seq<Seq<char>>
    decreases pieces.len(),
{
    if pieces.len() == 0 {
        seq![]
    } else {
        let prev = keep_components(pieces.drop_last());
        if is_component(pieces.last()) {
            prev.push(pieces.last())
        } else {
            prev
        }
    }
}

/// The named components of a Unix path, as `Path::components` yields
/// them after the root: repeated and trailing slashes and `.` dropped,
/// `..` kept.
pub open spec fn path_components(s: Seq<char>) -> Seq<Seq<char>> {
    keep_components(split_slash(s))
}

proof fn lemma_split_slash_nonempty(s: Seq<char>)
    ensures
        split_slash(s).len() > 0,
    decreases s.len(),
{
    if s.len() > 0 {
        lemma_split_slash_nonempty(s.drop_last());
    }
}

/// The named components of a Unix path.
pub fn components_of(path: &str) -> (r: Vec<Vec<char>>)
    ensures
        views(r@) == path_components(path@),
{
    let s = chars_of(path);
    let mut out: Vec<Vec<char>> = Vec::new();
    let mut cur: Vec<char> = Vec::new();
    let mut i: usize = 0;
    proof {
        assert(s@.take(0) =~= Seq::<char>::empty());
    }
    while i < s.len()
        invariant
            i <= s.len(),
            s@ == path@,
            split_slash(s@.take(i as int)).len() > 0,
            cur@ == split_slash(s@.take(i as int)).last(),
            views(out@) == keep_components(split_slash(s@.take(i as int)).drop_last()),
        decreases s.len() - i,
    {
        let ghost prev = split_slash(s@.take(i as int));
        assert(s@.take(i + 1).drop_last() =~= s@.take(i as int));
        assert(s@.take(i + 1).last() == s@[i as int]);
        proof {
            lemma_split_slash_nonempty(s@.take(i + 1));
        }
        if s[i] == '/' {
            let ghost before = views(out@);
            let done = cur;
            let keep = done.len() > 0 && !(done.len() == 1 && done[0] == '.');
            assert(keep == is_component(done@)) by {
                if done@.len() == 1 {
                    assert(done@ =~= seq!['.'] <==> done@[0] == '.');
                }
            }
            if keep {
                out.push(done);
                assert(views(out@) =~= before.push(prev.last()));
            }
            assert(split_slash(s@.take(i + 1)).drop_last() =~= prev);
            assert(prev.drop_last().push(prev.last()) =~= prev);
            cur = Vec::new();
        } else {
            cur.push(s[i]);
            assert(split_slash(s@.take(i + 1)).drop_last() =~= prev.drop_last());
        }
        i += 1;
    }
    assert(s@.take(s.len() as int) =~= s@);
    let ghost all = split_slash(s@);
    let ghost before = views(out@);
    let keep = cur.len() > 0 && !(cur.len() == 1 && cur[0] == '.');
    assert(keep == is_component(cur@)) by {
        if cur@.len() == 1 {
            assert(cur@ =~= seq!['.'] <==> cur@[0] == '.');
        }
    }
    assert(all.drop_last().push(all.last()) =~= all);
    if keep {
        out.push(cur);
        assert(views(out@) =~= before.push(all.last()));
    }
    out
}

/// The last component of a Unix path (`Path::file_name`): none for the
/// root, an empty path or one ending in `..`.
pub open spec fn file_name(s: Seq<char>) -> Option<Seq<char>> {
    let c = path_components(s);
    if c.len() > 0 && c.last() != seq!['.', '.'] {
        Some(c.last())
    } else {
        None
    }
}

/// The last component of a Unix path, if it names a file or directory.
pub fn file_name_of(path: &str) -> (r: Option<Vec<char>>)
    ensures
        match r {
            Some(n) => file_name(path@) == Some(n@),
            None => file_name(path@) is None,
        },
{
    let c = components_of(path);
    if c.len() == 0 {
        return None;
    }
    let last = &c[c.len() - 1];
    assert(views(c@)[c.len() - 1] == last@);
    let dotdot = last.len() == 2 && last[0] == '.' && last[1] == '.';
    assert(dotdot == (last@ == seq!['.', '.'])) by {
        if last@.len() == 2 {
            assert(last@ =~= seq!['.', '.'] <==> (last@[0] == '.' && last@[1] == '.'));
        }
    }
    if dotdot {
        None
    } else {
        Some(last.clone())
    }
}

} // verus!
