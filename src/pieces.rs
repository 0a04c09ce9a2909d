use vstd::prelude::*;
use crate::json::JsonV;
use crate::resolve::{
    brace_from, first_known, first_placeholder, lemma_first_known_is_first, is_brace, name_at, placeholder_at, resolve_spec, substitute_once,
    token_at, var_string,
};
use crate::text::{occurs_at, replace_all, replace_from};

verus! {

/// Whether a text holds no brace.
pub open spec fn brace_free(s: Seq<char>) -> bool {
    forall|k: int| 0 <= k < s.len() ==> !is_brace(#[trigger] s[k])
}

/// The placeholder `{{name}}`.
pub open spec fn tok(n: Seq<char>) -> Seq<char> {
    seq!['{', '{'] + n + seq!['}', '}']
}

proof fn lemma_brace_from_concat(a: Seq<char>, b: Seq<char>, k: int)
    requires
        0 <= k,
    ensures
        brace_from(a + b, a.len() + k) == a.len() + brace_from(b, k),
    decreases b.len() - k,
{
    if k < b.len() {
        assert((a + b)[a.len() + k] == b[k]);
        if !is_brace(b[k]) {
            lemma_brace_from_concat(a, b, k + 1);
        }
    }
}

proof fn lemma_brace_from_scan(s: Seq<char>, k: int, j: int)
    requires
        0 <= k <= j < s.len(),
        is_brace(s[j]),
        forall|m: int| k <= m < j ==> !is_brace(#[trigger] s[m]),
    ensures
        brace_from(s, k) == j,
    decreases j - k,
{
    if k < j {
        lemma_brace_from_scan(s, k + 1, j);
    }
}

proof fn lemma_placeholder_at_concat(a: Seq<char>, b: Seq<char>, k: int)
    requires
        0 <= k,
    ensures
        placeholder_at(a + b, a.len() + k) == placeholder_at(b, k),
        placeholder_at(b, k) ==> name_at(a + b, a.len() + k) == name_at(b, k) && token_at(a + b, a.len() + k) == token_at(b, k),
{
    lemma_brace_from_concat(a, b, k + 2);
    let s = a + b;
    if k + 1 < b.len() {
        assert(s[a.len() + k] == b[k]);
        assert(s[a.len() + k + 1] == b[k + 1]);
    }
    let j = brace_from(b, k + 2);
    crate::resolve::lemma_brace_from_bounds(b, k + 2);
    if 0 <= j && j + 1 < b.len() {
        assert(s[a.len() + j] == b[j]);
        assert(s[a.len() + j + 1] == b[j + 1]);
    }
    if placeholder_at(b, k) {
        assert(name_at(s, a.len() + k) =~= name_at(b, k));
        assert(token_at(s, a.len() + k) =~= token_at(b, k));
    }
}

proof fn lemma_first_placeholder_concat(a: Seq<char>, b: Seq<char>, k: int)
    requires
        0 <= k,
    ensures
        first_placeholder(a + b, a.len() + k) == (match first_placeholder(b, k) {
            Some(x) => Some(x + a.len()),
            None => None,
        }),
    decreases b.len() - k,
{
    if k < b.len() {
        lemma_placeholder_at_concat(a, b, k);
        if !placeholder_at(b, k) {
            lemma_first_placeholder_concat(a, b, k + 1);
        }
    }
}

proof fn lemma_brace_free_no_placeholder(s: Seq<char>, i: int)
    requires
        0 <= i,
        brace_free(s),
    ensures
        first_placeholder(s, i) is None,
    decreases s.len() - i,
{
    if i < s.len() {
        lemma_brace_free_no_placeholder(s, i + 1);
    }
}

proof fn lemma_replace_shift(s: Seq<char>, p: Seq<char>, v: Seq<char>, i: int)
    requires
        0 <= i <= s.len(),
        p.len() > 0,
    ensures
        replace_from(s, p, v, i) == replace_from(s.skip(i), p, v, 0),
    decreases s.len() - i,
{
    let t = s.skip(i);
    if i < s.len() {
        if i + p.len() <= s.len() {
            assert(s.subrange(i, i + p.len()) =~= t.subrange(0, p.len() as int));
        }
        if occurs_at(s, p, i) {
            lemma_replace_shift(s, p, v, i + p.len());
            lemma_replace_shift(t, p, v, p.len() as int);
            assert(t.skip(p.len() as int) =~= s.skip(i + p.len()));
        } else {
            lemma_replace_shift(s, p, v, i + 1);
            lemma_replace_shift(t, p, v, 1);
            assert(t.skip(1) =~= s.skip(i + 1));
            assert(t[0] == s[i]);
        }
    }
}

proof fn lemma_replace_skip_plain(s: Seq<char>, p: Seq<char>, v: Seq<char>, i: int, l: int)
    requires
        0 <= i <= l <= s.len(),
        p.len() > 0,
        forall|k: int| i <= k < l ==> !occurs_at(s, p, k),
    ensures
        replace_from(s, p, v, i) == s.subrange(i, l) + replace_from(s, p, v, l),
    decreases l - i,
{
    if i < l {
        lemma_replace_skip_plain(s, p, v, i + 1, l);
        assert(s.subrange(i, l) =~= seq![s[i]] + s.subrange(i + 1, l));
    } else {
        assert(s.subrange(i, l) =~= Seq::<char>::empty());
    }
}

/// A part of a text: one character other than a brace, or a placeholder.
pub enum Part {
    Chr(Seq<char>),
    Hole(Seq<char>),
}

pub open spec fn piece_text(p: Part) -> Seq<char> {
    match p {
        Part::Chr(c) => c,
        Part::Hole(n) => tok(n),
    }
}

/// The text that the pieces make, in order.
pub open spec fn pieces_text(ps: Seq<Part>) -> Seq<char>
    decreases ps.len(),
{
    if ps.len() == 0 {
        Seq::empty()
    } else {
        piece_text(ps[0]) + pieces_text(ps.drop_first())
    }
}

/// Whether no character piece is a brace and no name holds one.
pub open spec fn pieces_ok(ps: Seq<Part>) -> bool {
    forall|i: int| 0 <= i < ps.len() ==> match #[trigger] ps[i] {
        Part::Chr(c) => c.len() == 1 && !is_brace(c[0]),
        Part::Hole(n) => brace_free(n),
    }
}

/// The names of the placeholders among the pieces.
pub open spec fn var_names(ps: Seq<Part>) -> Set<Seq<char>>
    decreases ps.len(),
{
    if ps.len() == 0 {
        Set::empty()
    } else {
        match ps[0] {
            Part::Hole(n) => var_names(ps.drop_first()).insert(n),
            Part::Chr(_) => var_names(ps.drop_first()),
        }
    }
}

/// The name of the first placeholder among the pieces.
pub open spec fn first_var(ps: Seq<Part>) -> Option<Seq<char>>
    decreases ps.len(),
{
    if ps.len() == 0 {
        None
    } else {
        match ps[0] {
            Part::Hole(n) => Some(n),
            Part::Chr(_) => first_var(ps.drop_first()),
        }
    }
}

/// The characters of `v` as pieces.
pub open spec fn lits(v: Seq<char>) -> Seq<Part> {
    Seq::new(v.len(), |i: int| Part::Chr(seq![v[i]]))
}

/// The pieces with each placeholder `{{n}}` replaced by the characters of `v`.
pub open spec fn subst(ps: Seq<Part>, n: Seq<char>, v: Seq<char>) -> Seq<Part>
    decreases ps.len(),
{
    if ps.len() == 0 {
        Seq::empty()
    } else {
        match ps[0] {
            Part::Hole(m) => if m == n {
                lits(v) + subst(ps.drop_first(), n, v)
            } else {
                seq![ps[0]] + subst(ps.drop_first(), n, v)
            },
            Part::Chr(_) => seq![ps[0]] + subst(ps.drop_first(), n, v),
        }
    }
}

proof fn lemma_single(x: Part)
    ensures
        pieces_text(seq![x]) == piece_text(x),
        var_names(seq![x]) == (match x {
            Part::Hole(n) => Set::<Seq<char>>::empty().insert(n),
            Part::Chr(_) => Set::<Seq<char>>::empty(),
        }),
{
    let one = seq![x];
    assert(one[0] == x);
    assert(one.drop_first() =~= Seq::<Part>::empty());
    assert(pieces_text(one.drop_first()) == Seq::<char>::empty());
    assert(var_names(one.drop_first()) == Set::<Seq<char>>::empty());
    assert(piece_text(x) + Seq::<char>::empty() =~= piece_text(x));
    assert(pieces_text(one) == piece_text(one[0]) + pieces_text(one.drop_first()));
}

proof fn lemma_pieces_text_concat(a: Seq<Part>, b: Seq<Part>)
    ensures
        pieces_text(a + b) == pieces_text(a) + pieces_text(b),
    decreases a.len(),
{
    if a.len() == 0 {
        assert(a + b =~= b);
        assert(pieces_text(a) + pieces_text(b) =~= pieces_text(b));
    } else {
        assert((a + b).drop_first() =~= a.drop_first() + b);
        lemma_pieces_text_concat(a.drop_first(), b);
        assert(piece_text(a[0]) + (pieces_text(a.drop_first()) + pieces_text(b)) =~= (piece_text(a[0]) + pieces_text(a.drop_first())) + pieces_text(b));
    }
}

proof fn lemma_lits(v: Seq<char>)
    ensures
        pieces_text(lits(v)) == v,
        var_names(lits(v)) == Set::<Seq<char>>::empty(),
        brace_free(v) ==> pieces_ok(lits(v)),
    decreases v.len(),
{
    if v.len() > 0 {
        assert forall|i: int| 0 <= i < v.len() - 1 implies #[trigger] lits(v).drop_first()[i] == lits(v.drop_first())[i] by {
            assert(v.drop_first()[i] == v[i + 1]);
        }
        assert(lits(v).drop_first() =~= lits(v.drop_first()));
        lemma_lits(v.drop_first());
        assert(seq![v[0]] + v.drop_first() =~= v);
    } else {
        assert(lits(v).len() == 0);
        assert(pieces_text(lits(v)) =~= v);
        assert(var_names(lits(v)) =~= Set::<Seq<char>>::empty());
    }
}

proof fn lemma_var_names_concat(a: Seq<Part>, b: Seq<Part>)
    ensures
        var_names(a + b) == var_names(a) + var_names(b),
    decreases a.len(),
{
    if a.len() == 0 {
        assert(a + b =~= b);
        assert(var_names(a) + var_names(b) =~= var_names(b));
    } else {
        assert((a + b).drop_first() =~= a.drop_first() + b);
        lemma_var_names_concat(a.drop_first(), b);
        match a[0] {
            Part::Hole(m) => {
                assert(var_names(a + b) =~= var_names(a) + var_names(b));
            },
            Part::Chr(_) => {},
        }
    }
}

/// What a piece-made text with no placeholder is: free of braces.
proof fn lemma_no_var_brace_free(ps: Seq<Part>)
    requires
        pieces_ok(ps),
        first_var(ps) is None,
    ensures
        brace_free(pieces_text(ps)),
        var_names(ps) == Set::<Seq<char>>::empty(),
    decreases ps.len(),
{
    if ps.len() > 0 {
        assert(pieces_ok(ps.drop_first())) by {
            assert forall|i: int| 0 <= i < ps.drop_first().len() implies match #[trigger] ps.drop_first()[i] {
                Part::Chr(c) => c.len() == 1 && !is_brace(c[0]),
                Part::Hole(n) => brace_free(n),
            } by {
                assert(ps.drop_first()[i] == ps[i + 1]);
            }
        }
        lemma_no_var_brace_free(ps.drop_first());
        assert(ps[0] is Chr);
        let s = pieces_text(ps);
        let r = pieces_text(ps.drop_first());
        assert forall|k: int| 0 <= k < s.len() implies !is_brace(#[trigger] s[k]) by {
            if k > 0 {
                assert(s[k] == r[k - 1]);
            }
        }
    }
}

proof fn lemma_drop_ok(ps: Seq<Part>)
    requires
        ps.len() > 0,
        pieces_ok(ps),
    ensures
        pieces_ok(ps.drop_first()),
{
    assert forall|i: int| 0 <= i < ps.drop_first().len() implies match #[trigger] ps.drop_first()[i] {
        Part::Chr(c) => c.len() == 1 && !is_brace(c[0]),
        Part::Hole(n) => brace_free(n),
    } by {
        assert(ps.drop_first()[i] == ps[i + 1]);
    }
}

/// The first placeholder of a piece-made text is its first placeholder piece.
proof fn lemma_first_placeholder_pieces(ps: Seq<Part>)
    requires
        pieces_ok(ps),
    ensures
        match first_var(ps) {
            Some(n) => first_placeholder(pieces_text(ps), 0) matches Some(i) && name_at(pieces_text(ps), i) == n
                && token_at(pieces_text(ps), i) == tok(n),
            None => first_placeholder(pieces_text(ps), 0) is None,
        },
    decreases ps.len(),
{
    if ps.len() == 0 {
        lemma_brace_free_no_placeholder(pieces_text(ps), 0);
    } else {
        lemma_drop_ok(ps);
        let s = pieces_text(ps);
        let r = pieces_text(ps.drop_first());
        match ps[0] {
            Part::Chr(c) => {
                lemma_first_placeholder_pieces(ps.drop_first());
                assert(s == c + r);
                assert(s[0] == c[0]);
                assert(!placeholder_at(s, 0));
                lemma_first_placeholder_concat(c, r, 0);
                match first_placeholder(r, 0) {
                    Some(x) => {
                        lemma_first_placeholder_pieces(ps.drop_first());
                        crate::resolve::lemma_first_placeholder_at(r, 0);
                        lemma_placeholder_at_concat(c, r, x);
                    },
                    None => {},
                }
            },
            Part::Hole(n) => {
                assert(s == tok(n) + r);
                assert(s[0] == '{' && s[1] == '{');
                assert(s[n.len() as int + 2] == '}' && s[n.len() as int + 3] == '}');
                assert forall|m: int| 2 <= m < n.len() + 2 implies !is_brace(#[trigger] s[m]) by {
                    assert(s[m] == n[m - 2]);
                }
                lemma_brace_from_scan(s, 2, n.len() as int + 2);
                assert(placeholder_at(s, 0));
                assert(name_at(s, 0) =~= n);
                assert(token_at(s, 0) =~= tok(n));
            },
        }
    }
}

/// Replacing `{{n}}` in a piece-made text is replacing the placeholder pieces `{{n}}`.
proof fn lemma_replace_pieces(ps: Seq<Part>, n: Seq<char>, v: Seq<char>)
    requires
        pieces_ok(ps),
        brace_free(n),
    ensures
        replace_all(pieces_text(ps), tok(n), v) == pieces_text(subst(ps, n, v)),
    decreases ps.len(),
{
    let s = pieces_text(ps);
    let p = tok(n);
    if ps.len() == 0 {
        assert(replace_all(s, p, v) =~= Seq::<char>::empty());
    } else {
        lemma_drop_ok(ps);
        lemma_replace_pieces(ps.drop_first(), n, v);
        let r = pieces_text(ps.drop_first());
        let first = piece_text(ps[0]);
        assert(s == first + r);
        assert(s.skip(first.len() as int) =~= r);
        lemma_replace_shift(s, p, v, first.len() as int);
        match ps[0] {
            Part::Chr(c) => {
                assert(s[0] == c[0]);
                assert(!occurs_at(s, p, 0)) by {
                    if occurs_at(s, p, 0) {
                        assert(s.subrange(0, p.len() as int)[0] == p[0]);
                    }
                }
                assert(subst(ps, n, v) == seq![ps[0]] + subst(ps.drop_first(), n, v));
                lemma_pieces_text_concat(seq![ps[0]], subst(ps.drop_first(), n, v));
                lemma_single(ps[0]);
            },
            Part::Hole(m) => {
                if m == n {
                    assert(s.subrange(0, p.len() as int) =~= p);
                    assert(occurs_at(s, p, 0));
                    lemma_pieces_text_concat(lits(v), subst(ps.drop_first(), n, v));
                    lemma_lits(v);
                } else {
                    assert forall|k: int| 0 <= k < first.len() implies !occurs_at(s, p, k) by {
                        if occurs_at(s, p, k) {
                            let w = s.subrange(k, k + p.len());
                            assert(w[0] == p[0]);
                            assert(w[1] == p[1]);
                            if k == 0 {
                                if n.len() < m.len() {
                                    assert(w[n.len() as int + 2] == p[n.len() as int + 2]);
                                    assert(s[n.len() as int + 2] == m[n.len() as int]);
                                } else if n.len() > m.len() {
                                    assert(w[m.len() as int + 2] == p[m.len() as int + 2]);
                                    assert(p[m.len() as int + 2] == n[m.len() as int]);
                                } else {
                                    assert forall|q: int| 0 <= q < n.len() implies m[q] == n[q] by {
                                        assert(w[q + 2] == p[q + 2]);
                                        assert(s[q + 2] == m[q]);
                                    }
                                    assert(m =~= n);
                                }
                            } else if k == 1 {
                                assert(s[2] == w[1]);
                                if m.len() > 0 {
                                    assert(s[2] == m[0]);
                                }
                            } else {
                                assert(s[k] == w[0]);
                                if k < m.len() + 2 {
                                    assert(s[k] == m[k - 2]);
                                }
                            }
                        }
                    }
                    lemma_replace_skip_plain(s, p, v, 0, first.len() as int);
                    assert(s.subrange(0, first.len() as int) =~= first);
                    lemma_pieces_text_concat(seq![ps[0]], subst(ps.drop_first(), n, v));
                    lemma_single(ps[0]);
                }
            },
        }
    }
}

proof fn lemma_ok_concat(a: Seq<Part>, b: Seq<Part>)
    requires
        pieces_ok(a),
        pieces_ok(b),
    ensures
        pieces_ok(a + b),
{
    assert forall|i: int| 0 <= i < (a + b).len() implies match #[trigger] (a + b)[i] {
        Part::Chr(c) => c.len() == 1 && !is_brace(c[0]),
        Part::Hole(n) => brace_free(n),
    } by {
        if i < a.len() {
            assert((a + b)[i] == a[i]);
        } else {
            assert((a + b)[i] == b[i - a.len()]);
        }
    }
}

proof fn lemma_names_finite(ps: Seq<Part>)
    ensures
        var_names(ps).finite(),
    decreases ps.len(),
{
    if ps.len() > 0 {
        lemma_names_finite(ps.drop_first());
    }
}

proof fn lemma_first_var(ps: Seq<Part>)
    requires
        pieces_ok(ps),
    ensures
        first_var(ps) matches Some(n) ==> var_names(ps).contains(n) && brace_free(n),
    decreases ps.len(),
{
    if ps.len() > 0 {
        lemma_drop_ok(ps);
        lemma_first_var(ps.drop_first());
        assert(match ps[0] {
            Part::Chr(c) => c.len() == 1 && !is_brace(c[0]),
            Part::Hole(n) => brace_free(n),
        });
    }
}

proof fn lemma_subst(ps: Seq<Part>, n: Seq<char>, v: Seq<char>)
    requires
        pieces_ok(ps),
        brace_free(v),
    ensures
        pieces_ok(subst(ps, n, v)),
        var_names(subst(ps, n, v)) == var_names(ps).remove(n),
    decreases ps.len(),
{
    if ps.len() == 0 {
        assert(var_names(ps).remove(n) =~= Set::<Seq<char>>::empty());
    } else {
        lemma_drop_ok(ps);
        lemma_subst(ps.drop_first(), n, v);
        let rest = subst(ps.drop_first(), n, v);
        let head = seq![ps[0]];
        lemma_single(ps[0]);
        lemma_lits(v);
        assert(pieces_ok(head)) by {
            assert forall|i: int| 0 <= i < head.len() implies match #[trigger] head[i] {
                Part::Chr(c) => c.len() == 1 && !is_brace(c[0]),
                Part::Hole(m) => brace_free(m),
            } by {
                assert(head[i] == ps[0]);
            }
        }
        match ps[0] {
            Part::Hole(m) => {
                if m == n {
                    lemma_ok_concat(lits(v), rest);
                    lemma_var_names_concat(lits(v), rest);
                    assert(var_names(subst(ps, n, v)) =~= var_names(ps).remove(n));
                } else {
                    lemma_ok_concat(head, rest);
                    lemma_var_names_concat(head, rest);
                    assert(var_names(subst(ps, n, v)) =~= var_names(ps).remove(n));
                }
            },
            Part::Chr(_) => {
                lemma_ok_concat(head, rest);
                lemma_var_names_concat(head, rest);
                assert(var_names(subst(ps, n, v)) =~= var_names(ps).remove(n));
            },
        }
    }
}

/// In a piece-made text, each placeholder is one of the placeholder pieces.
proof fn lemma_placeholder_names(ps: Seq<Part>, j: int)
    requires
        pieces_ok(ps),
        placeholder_at(pieces_text(ps), j),
    ensures
        var_names(ps).contains(name_at(pieces_text(ps), j)),
    decreases ps.len(),
{
    let s = pieces_text(ps);
    if ps.len() > 0 {
        lemma_drop_ok(ps);
        let r = pieces_text(ps.drop_first());
        let first = piece_text(ps[0]);
        assert(s == first + r);
        if j >= first.len() {
            lemma_placeholder_at_concat(first, r, j - first.len());
            lemma_placeholder_names(ps.drop_first(), j - first.len());
        } else {
            match ps[0] {
                Part::Chr(c) => {
                    assert(s[0] == c[0]);
                },
                Part::Hole(n) => {
                    assert(match ps[0] {
                        Part::Chr(c) => c.len() == 1 && !is_brace(c[0]),
                        Part::Hole(m) => brace_free(m),
                    });
                    if j == 0 {
                        lemma_first_placeholder_pieces(ps);
                        assert(first_placeholder(s, 0) == Some(0int));
                    } else if j == 1 {
                        if n.len() > 0 {
                            assert(s[2] == n[0]);
                        }
                    } else {
                        if j < n.len() + 2 {
                            assert(s[j] == n[j - 2]);
                        }
                    }
                },
            }
        }
    }
}

proof fn lemma_all_names_known(t: Seq<(Seq<char>, JsonV)>, ps: Seq<Part>)
    requires
        pieces_ok(ps),
        forall|n: Seq<char>| #[trigger] var_names(ps).contains(n) ==> (var_string(t, n) matches Some(v) && brace_free(v)),
    ensures
        forall|j: int| 0 <= j && #[trigger] placeholder_at(pieces_text(ps), j) ==> var_string(t, name_at(pieces_text(ps), j)) is Some,
{
    assert forall|j: int| 0 <= j && #[trigger] placeholder_at(pieces_text(ps), j) implies var_string(t, name_at(pieces_text(ps), j)) is Some by {
        lemma_placeholder_names(ps, j);
    }
}

/// A text made of characters other than braces and of placeholders whose names all stand,
/// in the table, for texts without braces, resolves to a text without any brace, so
/// without any placeholder, when the credits are at least the number of distinct names.
pub proof fn lemma_known_placeholders_all_resolved(t: Seq<(Seq<char>, JsonV)>, ps: Seq<Part>, credits: nat)
    requires
        pieces_ok(ps),
        forall|n: Seq<char>| #[trigger] var_names(ps).contains(n) ==> (var_string(t, n) matches Some(v) && brace_free(v)),
        var_names(ps).len() <= credits,
    ensures
        brace_free(resolve_spec(t, pieces_text(ps), credits)),
        first_placeholder(resolve_spec(t, pieces_text(ps), credits), 0) is None,
    decreases credits,
{
    let s = pieces_text(ps);
    lemma_names_finite(ps);
    lemma_first_placeholder_pieces(ps);
    lemma_first_var(ps);
    match first_var(ps) {
        None => {
            lemma_no_var_brace_free(ps);
            lemma_brace_free_no_placeholder(s, 0);
            lemma_first_known_is_first(t, s, 0);
            assert(substitute_once(t, s) is None);
        },
        Some(n) => {
            let v = var_string(t, n)->Some_0;
            assert(var_names(ps).len() > 0) by {
                if var_names(ps).len() == 0 {
                    assert(var_names(ps) =~= Set::<Seq<char>>::empty());
                }
            }
            lemma_all_names_known(t, ps);
            lemma_first_known_is_first(t, s, 0);
            lemma_replace_pieces(ps, n, v);
            lemma_subst(ps, n, v);
            let next = subst(ps, n, v);
            assert(substitute_once(t, s) == Some(pieces_text(next)));
            assert(var_names(next).len() == var_names(ps).len() - 1);
            assert forall|m: Seq<char>| #[trigger] var_names(next).contains(m) implies (var_string(t, m) matches Some(w) && brace_free(w)) by {
                assert(var_names(ps).contains(m));
            }
            lemma_known_placeholders_all_resolved(t, next, (credits - 1) as nat);
            lemma_brace_free_no_placeholder(resolve_spec(t, pieces_text(ps), credits), 0);
        },
    }
}

} // verus!
