//! Text-level path reasoning: lexicographic ordering of paths, stripping the
//! indexing root from an absolute path, and resolving the final component of
//! a path.
//!
//! Paths are plain UTF-8 text in this library; the separator is `'/'`.

use vstd::prelude::*;

verus! {

/// Lexicographic "less than or equal" over character sequences, comparing
/// characters by scalar value; a strict prefix precedes the longer text.
pub open spec fn lex_le(a: Seq<char>, b: Seq<char>) -> bool
    decreases a.len(),
{
    if a.len() == 0 {
        true
    } else if b.len() == 0 {
        false
    } else if a[0] == b[0] {
        lex_le(a.drop_first(), b.drop_first())
    } else {
        (a[0] as u32) < (b[0] as u32)
    }
}

/// The ordering is reflexive.
pub proof fn lemma_lex_le_reflexive(a: Seq<char>)
    ensures
        lex_le(a, a),
    decreases a.len(),
{
    if a.len() > 0 {
        lemma_lex_le_reflexive(a.drop_first());
    }
}

/// The ordering is total: of any two texts, one is less than or equal to
/// the other.
pub proof fn lemma_lex_le_total(a: Seq<char>, b: Seq<char>)
    ensures
        lex_le(a, b) || lex_le(b, a),
    decreases a.len(),
{
    if a.len() > 0 && b.len() > 0 {
        if a[0] == b[0] {
            lemma_lex_le_total(a.drop_first(), b.drop_first());
        } else {
            vstd::utf8::char_u32_cast(a[0], a[0] as u32);
            vstd::utf8::char_u32_cast(b[0], b[0] as u32);
        }
    }
}

/// The ordering is antisymmetric: texts below each other are equal.
pub proof fn lemma_lex_le_antisymmetric(a: Seq<char>, b: Seq<char>)
    requires
        lex_le(a, b),
        lex_le(b, a),
    ensures
        a =~= b,
    decreases a.len(),
{
    if a.len() > 0 && b.len() > 0 && a[0] == b[0] {
        lemma_lex_le_antisymmetric(a.drop_first(), b.drop_first());
        assert(a =~= seq![a[0]] + a.drop_first());
        assert(b =~= seq![b[0]] + b.drop_first());
    }
}

/// The ordering is transitive.
pub proof fn lemma_lex_le_transitive(a: Seq<char>, b: Seq<char>, c: Seq<char>)
    requires
        lex_le(a, b),
        lex_le(b, c),
    ensures
        lex_le(a, c),
    decreases a.len(),
{
    if a.len() > 0 && b.len() > 0 && c.len() > 0 {
        if a[0] == b[0] && b[0] == c[0] {
            lemma_lex_le_transitive(a.drop_first(), b.drop_first(), c.drop_first());
        }
    }
}

/// Compares two texts in the lexicographic order of [`lex_le`].
pub fn str_le(a: &str, b: &str) -> (r: bool)
    ensures
        r == lex_le(a@, b@),
    decreases a@.len(),
{
    let an = a.unicode_len();
    let bn = b.unicode_len();
    if an == 0 {
        true
    } else if bn == 0 {
        false
    } else {
        let ca = a.get_char(0);
        let cb = b.get_char(0);
        if ca == cb {
            let ta = a.substring_char(1, an);
            let tb = b.substring_char(1, bn);
            proof {
                assert(ta@ =~= a@.drop_first());
                assert(tb@ =~= b@.drop_first());
            }
            str_le(ta, tb)
        } else {
            (ca as u32) < (cb as u32)
        }
    }
}

/// The characters after the last `'/'` of a path: the whole path if it has
/// no separator, and nothing if it ends with one.
pub open spec fn suffix_after_last_slash(p: Seq<char>) -> Seq<char>
    decreases p.len(),
{
    if p.len() == 0 {
        Seq::empty()
    } else if p.last() == '/' {
        Seq::empty()
    } else {
        suffix_after_last_slash(p.drop_last()).push(p.last())
    }
}

/// The final component of a path: the text after the last `'/'`, unless
/// that text is empty or a dot component, in which cases the path has no
/// resolvable name.
pub open spec fn file_name_of(p: Seq<char>) -> Option<Seq<char>> {
    let suf = suffix_after_last_slash(p);
    if suf.len() == 0 || suf == seq!['.'] || suf == seq!['.', '.'] {
        None
    } else {
        Some(suf)
    }
}

proof fn lemma_suffix_after_last_slash(p: Seq<char>, i: int)
    requires
        0 <= i <= p.len(),
        forall|j: int| i <= j < p.len() ==> p[j] != '/',
        i > 0 ==> p[i - 1] == '/',
    ensures
        suffix_after_last_slash(p) =~= p.skip(i),
    decreases p.len(),
{
    if p.len() == 0 {
    } else if i == p.len() {
        if i > 0 {
            assert(p.last() == '/');
        }
    } else {
        assert(p.last() != '/');
        lemma_suffix_after_last_slash(p.drop_last(), i);
        assert(suffix_after_last_slash(p) =~= p.drop_last().skip(i).push(p.last()));
    }
}

/// Resolves the final component of a path, as [`file_name_of`] describes.
pub fn file_name(p: &str) -> (r: Option<String>)
    ensures
        match r {
            Some(s) => file_name_of(p@) == Some(s@),
            None => file_name_of(p@) is None,
        },
{
    let n = p.unicode_len();
    let mut i: usize = n;
    while i > 0 && p.get_char(i - 1) != '/'
        invariant
            i <= n,
            n == p@.len(),
            forall|j: int| i <= j < n ==> p@[j] != '/',
        decreases i,
    {
        i = i - 1;
    }
    proof {
        lemma_suffix_after_last_slash(p@, i as int);
    }
    let suf = p.substring_char(i, n);
    proof {
        assert(suf@ =~= p@.skip(i as int));
    }
    let len = n - i;
    if len == 0 {
        return None;
    }
    if len == 1 && suf.get_char(0) == '.' {
        proof {
            assert(suf@ =~= seq!['.']);
        }
        return None;
    }
    if len == 2 && suf.get_char(0) == '.' && suf.get_char(1) == '.' {
        proof {
            assert(suf@ =~= seq!['.', '.']);
        }
        return None;
    }
    proof {
        assert(suf@ != seq!['.'] && suf@ != seq!['.', '.']) by {
            if suf@ == seq!['.'] {
                assert(suf@.len() == 1 && suf@[0] == '.');
            }
            if suf@ == seq!['.', '.'] {
                assert(suf@.len() == 2 && suf@[0] == '.' && suf@[1] == '.');
            }
        }
    }
    Some(suf.to_owned())
}

/// The path relative to an indexing root: what follows the root prefix and
/// its separator in an absolute path, empty for the root itself, and
/// nothing when the absolute path does not lie under the root.
pub open spec fn strip_root_prefix(root: Seq<char>, abs: Seq<char>) -> Option<Seq<char>> {
    if abs == root {
        Some(Seq::empty())
    } else if root.len() < abs.len() && abs.take(root.len() as int) == root {
        if root.len() > 0 && root.last() == '/' {
            Some(abs.skip(root.len() as int))
        } else if abs[root.len() as int] == '/' {
            Some(abs.skip(root.len() + 1int))
        } else {
            None
        }
    } else {
        None
    }
}

/// Strips the indexing root from an absolute path, as
/// [`strip_root_prefix`] describes.
pub fn strip_prefix(root: &str, abs: &str) -> (r: Option<String>)
    ensures
        match r {
            Some(s) => strip_root_prefix(root@, abs@) == Some(s@),
            None => strip_root_prefix(root@, abs@) is None,
        },
{
    let rn = root.unicode_len();
    let an = abs.unicode_len();
    if an < rn {
        return None;
    }
    let mut i: usize = 0;
    while i < rn
        invariant
            i <= rn,
            rn == root@.len(),
            an == abs@.len(),
            rn <= an,
            forall|j: int| 0 <= j < i ==> abs@[j] == root@[j],
        decreases rn - i,
    {
        if abs.get_char(i) != root.get_char(i) {
            proof {
                assert(abs@.take(rn as int)[i as int] != root@[i as int]);
                assert(abs@ == root@ ==> abs@[i as int] == root@[i as int]);
            }
            return None;
        }
        i = i + 1;
    }
    proof {
        assert(abs@.take(rn as int) =~= root@);
    }
    if an == rn {
        proof {
            assert(abs@ =~= root@);
        }
        return Some(String::new());
    }
    if rn > 0 && root.get_char(rn - 1) == '/' {
        let rel = abs.substring_char(rn, an);
        return Some(rel.to_owned());
    }
    if abs.get_char(rn) == '/' {
        let rel = abs.substring_char(rn + 1, an);
        return Some(rel.to_owned());
    }
    None
}

} // verus!
