//! The color rewriter: substitutes the reserved `currentColor` token with
//! a caller-supplied color across every syntactic form in which the token
//! can appear, as an ordered sequence of literal replacements with a
//! catch-all pass last.

use vstd::prelude::*;

verus! {

/// The reserved color token.
pub open spec fn token() -> Seq<char> {
    "currentColor"@
}

/// `pat` occurs in `s` starting at position `i`.
pub open spec fn occurs_at(s: Seq<char>, pat: Seq<char>, i: int) -> bool {
    0 <= i && i + pat.len() <= s.len() && s.subrange(i, i + pat.len()) == pat
}

/// `pat` occurs somewhere in `s`.
pub open spec fn occurs(s: Seq<char>, pat: Seq<char>) -> bool {
    exists|i: int| occurs_at(s, pat, i)
}

/// `s` starts with `p`.
pub open spec fn has_prefix(s: Seq<char>, p: Seq<char>) -> bool {
    p.len() <= s.len() && s.subrange(0, p.len() as int) == p
}

/// Leftmost, non-overlapping replacement of every occurrence of `pat` in
/// `s` by `rep` — the semantics of `str::replace`.
pub open spec fn replaced(s: Seq<char>, pat: Seq<char>, rep: Seq<char>) -> Seq<char>
    decreases s.len(),
{
    if pat.len() == 0 || s.len() < pat.len() {
        s
    } else if s.subrange(0, pat.len() as int) == pat {
        rep + replaced(s.skip(pat.len() as int), pat, rep)
    } else {
        seq![s[0]] + replaced(s.skip(1), pat, rep)
    }
}

/// Does `pat` occur in `s` at position `i`?
fn matches_at(s: &str, pat: &str, i: usize, n: usize) -> (b: bool)
    requires
        n == s@.len(),
        i + pat@.len() <= n,
    ensures
        b == occurs_at(s@, pat@, i as int),
{
    let m = pat.unicode_len();
    let mut j: usize = 0;
    while j < m
        invariant
            n == s@.len(),
            m == pat@.len(),
            i + m <= n,
            j <= m,
            forall|k: int| 0 <= k < j ==> s@[i + k] == pat@[k],
        decreases m - j,
    {
        if s.get_char(i + j) != pat.get_char(j) {
            proof {
                assert(s@.subrange(i as int, i + m) != pat@) by {
                    if s@.subrange(i as int, i + m) == pat@ {
                        assert(s@.subrange(i as int, i + m)[j as int] == s@[i + j]);
                    }
                }
            }
            return false;
        }
        j = j + 1;
    }
    proof {
        assert(s@.subrange(i as int, i + m) =~= pat@);
    }
    true
}

/// Replaces every occurrence of `pat` in `s` by `rep`, leftmost first,
/// exactly as [`replaced`] states.
pub fn replace_all(s: &str, pat: &str, rep: &str) -> (r: String)
    requires
        pat@.len() > 0,
    ensures
        r@ == replaced(s@, pat@, rep@),
{
    let n = s.unicode_len();
    let m = pat.unicode_len();
    let mut out = String::new();
    let mut i: usize = 0;
    proof {
        assert(s@.skip(0) == s@);
    }
    while i < n
        invariant
            n == s@.len(),
            m == pat@.len(),
            m > 0,
            i <= n,
            replaced(s@, pat@, rep@) == out@ + replaced(s@.skip(i as int), pat@, rep@),
        decreases n - i,
    {
        let ghost t = s@.skip(i as int);
        let ghost prev = out@;
        if m <= n - i && matches_at(s, pat, i, n) {
            out.append(rep);
            proof {
                let x = replaced(s@.skip(i + m), pat@, rep@);
                assert(t.subrange(0, m as int) =~= s@.subrange(i as int, i + m));
                assert(t.skip(m as int) =~= s@.skip(i + m));
                assert(replaced(t, pat@, rep@) == rep@ + x);
                assert(prev + (rep@ + x) =~= (prev + rep@) + x);
            }
            i = i + m;
        } else {
            let c = s.substring_char(i, i + 1);
            out.append(c);
            proof {
                let x = replaced(s@.skip(i + 1), pat@, rep@);
                assert(t.len() >= 1);
                if t.len() >= m {
                    assert(t.subrange(0, m as int) =~= s@.subrange(i as int, i + m));
                    assert(t.subrange(0, m as int) != pat@);
                }
                assert(t.skip(1) =~= s@.skip(i + 1));
                assert(c@ == s@.subrange(i as int, i + 1));
                assert(seq![t[0]] =~= c@);
                assert(replaced(t, pat@, rep@) == c@ + x);
                assert(prev + (c@ + x) =~= (prev + c@) + x);
            }
            i = i + 1;
        }
    }
    proof {
        assert(s@.skip(n as int) =~= Seq::<char>::empty());
        assert(replaced(s@.skip(n as int), pat@, rep@) == s@.skip(n as int));
        assert(out@ + s@.skip(n as int) =~= out@);
    }
    out
}

/// `fill="currentColor"`.
pub open spec fn pat_fill_dq() -> Seq<char> {
    "fill=\"currentColor\""@
}

/// `fill="<c>"`.
pub open spec fn rep_fill_dq(c: Seq<char>) -> Seq<char> {
    "fill=\""@ + c + "\""@
}

/// `fill='currentColor'`.
pub open spec fn pat_fill_sq() -> Seq<char> {
    "fill='currentColor'"@
}

/// `fill='<c>'`.
pub open spec fn rep_fill_sq(c: Seq<char>) -> Seq<char> {
    "fill='"@ + c + "'"@
}

/// `stroke="currentColor"`.
pub open spec fn pat_stroke_dq() -> Seq<char> {
    "stroke=\"currentColor\""@
}

/// `stroke="<c>"`.
pub open spec fn rep_stroke_dq(c: Seq<char>) -> Seq<char> {
    "stroke=\""@ + c + "\""@
}

/// `stroke='currentColor'`.
pub open spec fn pat_stroke_sq() -> Seq<char> {
    "stroke='currentColor'"@
}

/// `stroke='<c>'`.
pub open spec fn rep_stroke_sq(c: Seq<char>) -> Seq<char> {
    "stroke='"@ + c + "'"@
}

/// The inline style declaration `fill:currentColor`.
pub open spec fn pat_style_fill() -> Seq<char> {
    "fill:currentColor"@
}

/// `fill:<c>`.
pub open spec fn rep_style_fill(c: Seq<char>) -> Seq<char> {
    "fill:"@ + c
}

/// The inline style declaration `stroke:currentColor`.
pub open spec fn pat_style_stroke() -> Seq<char> {
    "stroke:currentColor"@
}

/// `stroke:<c>`.
pub open spec fn rep_style_stroke(c: Seq<char>) -> Seq<char> {
    "stroke:"@ + c
}

/// The whole rewrite: the six attribute and style forms first, then a
/// catch-all pass over every remaining bare occurrence of the token.
pub open spec fn rewrite_spec(s: Seq<char>, c: Seq<char>) -> Seq<char> {
    let s1 = replaced(s, pat_fill_dq(), rep_fill_dq(c));
    let s2 = replaced(s1, pat_fill_sq(), rep_fill_sq(c));
    let s3 = replaced(s2, pat_stroke_dq(), rep_stroke_dq(c));
    let s4 = replaced(s3, pat_stroke_sq(), rep_stroke_sq(c));
    let s5 = replaced(s4, pat_style_fill(), rep_style_fill(c));
    let s6 = replaced(s5, pat_style_stroke(), rep_style_stroke(c));
    replaced(s6, token(), c)
}

/// Rewrites every occurrence of the reserved `currentColor` token in
/// `svg_content` to `new_color`, exactly as [`rewrite_spec`] states.
///
/// The replacement is inserted verbatim, with no validation of its form;
/// the operation is total.
pub fn change_svg_color(svg_content: &str, new_color: &str) -> (r: String)
    ensures
        r@ == rewrite_spec(svg_content@, new_color@),
{
    proof {
        reveal_strlit("fill=\"currentColor\"");
        reveal_strlit("fill='currentColor'");
        reveal_strlit("stroke=\"currentColor\"");
        reveal_strlit("stroke='currentColor'");
        reveal_strlit("fill:currentColor");
        reveal_strlit("stroke:currentColor");
        reveal_strlit("currentColor");
    }
    let mut r1 = String::from_str("fill=\"");
    r1.append(new_color);
    r1.append("\"");
    let s1 = replace_all(svg_content, "fill=\"currentColor\"", r1.as_str());

    let mut r2 = String::from_str("fill='");
    r2.append(new_color);
    r2.append("'");
    let s2 = replace_all(s1.as_str(), "fill='currentColor'", r2.as_str());

    let mut r3 = String::from_str("stroke=\"");
    r3.append(new_color);
    r3.append("\"");
    let s3 = replace_all(s2.as_str(), "stroke=\"currentColor\"", r3.as_str());

    let mut r4 = String::from_str("stroke='");
    r4.append(new_color);
    r4.append("'");
    let s4 = replace_all(s3.as_str(), "stroke='currentColor'", r4.as_str());

    let mut r5 = String::from_str("fill:");
    r5.append(new_color);
    let s5 = replace_all(s4.as_str(), "fill:currentColor", r5.as_str());

    let mut r6 = String::from_str("stroke:");
    r6.append(new_color);
    let s6 = replace_all(s5.as_str(), "stroke:currentColor", r6.as_str());

    replace_all(s6.as_str(), "currentColor", new_color)
}

/// If `pat` does not occur in `s`, replacement leaves `s` unchanged.
proof fn lemma_no_occurrence_identity(s: Seq<char>, pat: Seq<char>, rep: Seq<char>)
    requires
        pat.len() > 0,
        !occurs(s, pat),
    ensures
        replaced(s, pat, rep) == s,
    decreases s.len(),
{
    if s.len() < pat.len() {
    } else if s.subrange(0, pat.len() as int) == pat {
        assert(occurs_at(s, pat, 0));
        assert(false);
    } else {
        assert(!occurs(s.skip(1), pat)) by {
            if occurs(s.skip(1), pat) {
                let i = choose|i: int| occurs_at(s.skip(1), pat, i);
                assert(s.subrange(i + 1, i + 1 + pat.len()) =~= s.skip(1).subrange(i, i + pat.len()));
                assert(occurs_at(s, pat, i + 1));
                assert(false);
            }
        }
        lemma_no_occurrence_identity(s.skip(1), pat, rep);
        assert(seq![s[0]] + s.skip(1) =~= s);
    }
}

/// A text free of the token is free of every pattern that contains the
/// token (here: at offset `a` of the pattern).
proof fn lemma_token_free_pattern_free(s: Seq<char>, pat: Seq<char>, a: int)
    requires
        0 <= a,
        a + token().len() <= pat.len(),
        pat.subrange(a, a + token().len()) == token(),
        !occurs(s, token()),
    ensures
        !occurs(s, pat),
{
    let tl = token().len() as int;
    if occurs(s, pat) {
        let i = choose|i: int| occurs_at(s, pat, i);
        assert(s.subrange(i + a, i + a + tl) =~= pat.subrange(a, a + tl)) by {
            assert forall|x: int| 0 <= x < tl implies
                #[trigger] s.subrange(i + a, i + a + tl)[x] == pat.subrange(a, a + tl)[x] by {
                assert(s.subrange(i, i + pat.len())[a + x] == s[i + a + x]);
            }
        }
        assert(occurs_at(s, token(), i + a));
        assert(false);
    }
}

/// The replacement cannot form a new occurrence of the token anywhere in
/// rewritten text: it does not contain the token; no nonempty suffix of it
/// equals a proper prefix of the token; no proper suffix of the token is a
/// prefix of it; and it does not equal an interior slice of the token.
/// Any ordinary color value (for instance `#FF0000`) satisfies this; a
/// replacement such as `XcurrentColo` does not, and indeed breaks
/// idempotence.
pub open spec fn no_token_overlap(c: Seq<char>) -> bool {
    &&& !occurs(c, token())
    &&& forall|k: int| #![auto] 1 <= k < token().len() && k <= c.len() ==>
            c.subrange(c.len() - k, c.len() as int) != token().subrange(0, k)
    &&& forall|j: int| #![auto] 1 <= j < token().len() ==>
            !has_prefix(c, token().subrange(j, token().len() as int))
    &&& forall|j: int| 1 <= j && j + c.len() < token().len() ==>
            #[trigger] token().subrange(j, j + c.len()) != c
}

/// After replacing every occurrence of the token by a non-overlapping
/// replacement, no occurrence of the token remains; and the result can
/// only start with a proper suffix of the token where the input did.
proof fn lemma_replace_token_clean(s: Seq<char>, c: Seq<char>)
    requires
        no_token_overlap(c),
    ensures
        !occurs(replaced(s, token(), c), token()),
        forall|j: int| #![auto] 1 <= j < token().len()
            && has_prefix(replaced(s, token(), c), token().subrange(j, token().len() as int))
            ==> has_prefix(s, token().subrange(j, token().len() as int)),
    decreases s.len(),
{
    reveal_strlit("currentColor");
    let t = token();
    let tl = t.len() as int;
    let r = replaced(s, t, c);
    if s.len() < t.len() {
        assert(!occurs(r, t)) by {
            if occurs(r, t) {
                let i = choose|i: int| occurs_at(r, t, i);
                assert(false);
            }
        }
    } else if s.subrange(0, tl) == t {
        let s2 = s.skip(tl);
        lemma_replace_token_clean(s2, c);
        let r2 = replaced(s2, t, c);
        assert(r == c + r2);
        let cl = c.len() as int;
        assert(!occurs(r, t)) by {
            if occurs(r, t) {
                let i = choose|i: int| occurs_at(r, t, i);
                let w = r.subrange(i, i + tl);
                assert(w == t);
                if i + tl <= cl {
                    assert(c.subrange(i, i + tl) =~= t) by {
                        assert forall|x: int| 0 <= x < tl implies #[trigger] c.subrange(i, i + tl)[x] == t[x] by {
                            assert(w[x] == r[i + x]);
                            assert(r[i + x] == c[i + x]);
                        }
                    }
                    assert(occurs_at(c, t, i));
                    assert(false);
                } else if i < cl {
                    let k = cl - i;
                    assert(1 <= k < tl);
                    assert(c.subrange(cl - k, cl) =~= t.subrange(0, k)) by {
                        assert forall|x: int| 0 <= x < k implies #[trigger] c.subrange(cl - k, cl)[x] == t.subrange(0, k)[x] by {
                            assert(w[x] == r[i + x]);
                            assert(r[i + x] == c[i + x]);
                        }
                    }
                    assert(false);
                } else {
                    assert(occurs_at(r2, t, i - cl)) by {
                        assert(r2.subrange(i - cl, i - cl + tl) =~= t) by {
                            assert forall|x: int| 0 <= x < tl implies #[trigger] r2.subrange(i - cl, i - cl + tl)[x] == t[x] by {
                                assert(w[x] == r[i + x]);
                                assert(r[i + x] == r2[i + x - cl]);
                            }
                        }
                    }
                    assert(false);
                }
            }
        }
        assert forall|j: int| 1 <= j < tl && has_prefix(r, t.subrange(j, tl))
            implies has_prefix(s, t.subrange(j, tl)) by {
            let suf = t.subrange(j, tl);
            let l = tl - j;
            assert(r.subrange(0, l) == suf);
            if l <= cl {
                assert(c.subrange(0, l) =~= suf) by {
                    assert forall|x: int| 0 <= x < l implies #[trigger] c.subrange(0, l)[x] == suf[x] by {
                        assert(r.subrange(0, l)[x] == r[x]);
                        assert(r[x] == c[x]);
                    }
                }
                assert(has_prefix(c, suf));
                assert(false);
            } else {
                assert(t.subrange(j, j + cl) =~= c) by {
                    assert forall|x: int| 0 <= x < cl implies #[trigger] t.subrange(j, j + cl)[x] == c[x] by {
                        assert(r.subrange(0, l)[x] == r[x]);
                        assert(r[x] == c[x]);
                        assert(suf[x] == t[j + x]);
                    }
                }
                assert(false);
            }
        }
    } else {
        let s2 = s.skip(1);
        lemma_replace_token_clean(s2, c);
        let r2 = replaced(s2, t, c);
        assert(r == seq![s[0]] + r2);
        assert(!occurs(r, t)) by {
            if occurs(r, t) {
                let i = choose|i: int| occurs_at(r, t, i);
                let w = r.subrange(i, i + tl);
                assert(w == t);
                if i == 0 {
                    assert(s[0] == t[0]) by {
                        assert(w[0] == r[0]);
                        assert(r[0] == s[0]);
                    }
                    assert(has_prefix(r2, t.subrange(1, tl))) by {
                        assert(r2.subrange(0, tl - 1) =~= t.subrange(1, tl)) by {
                            assert forall|x: int| 0 <= x < tl - 1 implies
                                #[trigger] r2.subrange(0, tl - 1)[x] == t.subrange(1, tl)[x] by {
                                assert(w[x + 1] == r[x + 1]);
                                assert(r[x + 1] == r2[x]);
                            }
                        }
                    }
                    assert(has_prefix(s2, t.subrange(1, tl)));
                    assert(s.subrange(0, tl) =~= t) by {
                        assert forall|x: int| 0 <= x < tl implies #[trigger] s.subrange(0, tl)[x] == t[x] by {
                            if x >= 1 {
                                assert(s2.subrange(0, tl - 1)[x - 1] == s2[x - 1]);
                                assert(s2[x - 1] == s[x]);
                                assert(t.subrange(1, tl)[x - 1] == t[x]);
                            }
                        }
                    }
                    assert(false);
                } else {
                    assert(occurs_at(r2, t, i - 1)) by {
                        assert(r2.subrange(i - 1, i - 1 + tl) =~= t) by {
                            assert forall|x: int| 0 <= x < tl implies
                                #[trigger] r2.subrange(i - 1, i - 1 + tl)[x] == t[x] by {
                                assert(w[x] == r[i + x]);
                                assert(r[i + x] == r2[i + x - 1]);
                            }
                        }
                    }
                    assert(false);
                }
            }
        }
        assert forall|j: int| 1 <= j < tl && has_prefix(r, t.subrange(j, tl))
            implies has_prefix(s, t.subrange(j, tl)) by {
            let suf = t.subrange(j, tl);
            let l = tl - j;
            assert(r.subrange(0, l) == suf);
            assert(s[0] == suf[0]) by {
                assert(r.subrange(0, l)[0] == r[0]);
                assert(r[0] == s[0]);
            }
            if l == 1 {
                assert(s.subrange(0, 1) =~= suf);
            } else {
                assert(has_prefix(r2, t.subrange(j + 1, tl))) by {
                    assert(r2.subrange(0, l - 1) =~= t.subrange(j + 1, tl)) by {
                        assert forall|x: int| 0 <= x < l - 1 implies
                            #[trigger] r2.subrange(0, l - 1)[x] == t.subrange(j + 1, tl)[x] by {
                            assert(r.subrange(0, l)[x + 1] == r[x + 1]);
                            assert(r[x + 1] == r2[x]);
                            assert(suf[x + 1] == t[j + 1 + x]);
                        }
                    }
                }
                assert(has_prefix(s2, t.subrange(j + 1, tl)));
                assert(s.subrange(0, l) =~= suf) by {
                    assert forall|x: int| 0 <= x < l implies #[trigger] s.subrange(0, l)[x] == suf[x] by {
                        if x >= 1 {
                            assert(s2.subrange(0, l - 1)[x - 1] == s2[x - 1]);
                            assert(s2[x - 1] == s[x]);
                            assert(t.subrange(j + 1, tl)[x - 1] == t[j + x]);
                        }
                    }
                }
            }
        }
    }
}

/// Applying the rewrite twice with the same replacement yields the same
/// text as applying it once, provided the replacement cannot re-create the
/// token ([`no_token_overlap`]).  A replacement that merely differs from
/// the token is not quite enough: one that overlaps it at a boundary, such
/// as `XcurrentColo` before a text starting `currentColorr`, forms a fresh
/// token out of neighbouring characters.
pub proof fn lemma_rewrite_idempotent(s: Seq<char>, c: Seq<char>)
    requires
        no_token_overlap(c),
    ensures
        rewrite_spec(rewrite_spec(s, c), c) == rewrite_spec(s, c),
{
    reveal_strlit("currentColor");
    reveal_strlit("fill=\"currentColor\"");
    reveal_strlit("fill='currentColor'");
    reveal_strlit("stroke=\"currentColor\"");
    reveal_strlit("stroke='currentColor'");
    reveal_strlit("fill:currentColor");
    reveal_strlit("stroke:currentColor");
    let s1 = replaced(s, pat_fill_dq(), rep_fill_dq(c));
    let s2 = replaced(s1, pat_fill_sq(), rep_fill_sq(c));
    let s3 = replaced(s2, pat_stroke_dq(), rep_stroke_dq(c));
    let s4 = replaced(s3, pat_stroke_sq(), rep_stroke_sq(c));
    let s5 = replaced(s4, pat_style_fill(), rep_style_fill(c));
    let s6 = replaced(s5, pat_style_stroke(), rep_style_stroke(c));
    let r0 = replaced(s6, token(), c);
    assert(rewrite_spec(s, c) == r0);
    lemma_replace_token_clean(s6, c);
    assert(!occurs(r0, token()));
    assert(pat_fill_dq().subrange(6, 18) =~= token());
    assert(pat_fill_sq().subrange(6, 18) =~= token());
    assert(pat_stroke_dq().subrange(8, 20) =~= token());
    assert(pat_stroke_sq().subrange(8, 20) =~= token());
    assert(pat_style_fill().subrange(5, 17) =~= token());
    assert(pat_style_stroke().subrange(7, 19) =~= token());
    lemma_token_free_pattern_free(r0, pat_fill_dq(), 6);
    lemma_no_occurrence_identity(r0, pat_fill_dq(), rep_fill_dq(c));
    lemma_token_free_pattern_free(r0, pat_fill_sq(), 6);
    lemma_no_occurrence_identity(r0, pat_fill_sq(), rep_fill_sq(c));
    lemma_token_free_pattern_free(r0, pat_stroke_dq(), 8);
    lemma_no_occurrence_identity(r0, pat_stroke_dq(), rep_stroke_dq(c));
    lemma_token_free_pattern_free(r0, pat_stroke_sq(), 8);
    lemma_no_occurrence_identity(r0, pat_stroke_sq(), rep_stroke_sq(c));
    lemma_token_free_pattern_free(r0, pat_style_fill(), 5);
    lemma_no_occurrence_identity(r0, pat_style_fill(), rep_style_fill(c));
    lemma_token_free_pattern_free(r0, pat_style_stroke(), 7);
    lemma_no_occurrence_identity(r0, pat_style_stroke(), rep_style_stroke(c));
    lemma_no_occurrence_identity(r0, token(), c);
    assert(rewrite_spec(r0, c) == r0);
}

/// An ordinary hex color satisfies [`no_token_overlap`]: none of its
/// characters occurs in the token, so no boundary can form one.  This
/// witnesses that the idempotence law below applies to realistic
/// replacements.
pub proof fn lemma_hex_color_no_overlap()
    ensures
        no_token_overlap("#FF0000"@),
{
    reveal_strlit("currentColor");
    reveal_strlit("#FF0000");
    let c = "#FF0000"@;
    let t = token();
    assert(!occurs(c, t)) by {
        if occurs(c, t) {
            let i = choose|i: int| occurs_at(c, t, i);
            assert(false);
        }
    }
    assert forall|k: int| 1 <= k < t.len() && k <= c.len() implies
        c.subrange(c.len() - k, c.len() as int) != t.subrange(0, k) by {
        assert(c.subrange(c.len() - k, c.len() as int)[0] == c[c.len() - k]);
        assert(t.subrange(0, k)[0] == t[0]);
    }
    assert forall|j: int| 1 <= j < t.len() implies
        !has_prefix(c, t.subrange(j, t.len() as int)) by {
        if has_prefix(c, t.subrange(j, t.len() as int)) {
            assert(c.subrange(0, t.len() - j)[0] == c[0]);
            assert(t.subrange(j, t.len() as int)[0] == t[j]);
            assert(false);
        }
    }
    assert forall|j: int| 1 <= j && j + c.len() < t.len() implies
        #[trigger] t.subrange(j, j + c.len()) != c by {
        assert(t.subrange(j, j + c.len())[0] == t[j]);
    }
}

} // verus!
