//! The match engine: path patterns (literal, `:param` and `*` segments)
//! and full request conditions.

use vstd::prelude::*;

use crate::json::{json_eq, Json, JsonV};
use crate::models::{pairs_view, ConditionV, RequestCondition};
use crate::text::{bytes_eq, eq_ignore_case, find_byte, idx_of, lemma_idx_of, upper_seq};

verus! {

/// One token of a compiled path pattern.
#[derive(Clone, Copy, PartialEq, Eq, Structural)]
pub enum Tok {
    /// Matches exactly this byte.
    Lit(u8),
    /// A `:param` segment: one or more bytes, none of them `/`.
    Param,
    /// A `*`: any run of bytes, slashes included.
    Any,
}

/// Compiles a pattern to tokens. At a segment start, a `:` consumes the
/// whole segment as a parameter; elsewhere `*` matches any run of bytes
/// and every other byte stands for itself.
pub open spec fn compile(p: Seq<u8>, at_start: bool) -> Seq<Tok>
    decreases p.len(),
    via compile_dec
{
    if p.len() == 0 {
        Seq::empty()
    } else if at_start && p[0] == 58 {
        seq![Tok::Param] + compile(p.skip(idx_of(p, 47)), false)
    } else if p[0] == 47 {
        seq![Tok::Lit(47u8)] + compile(p.drop_first(), true)
    } else if p[0] == 42 {
        seq![Tok::Any] + compile(p.drop_first(), false)
    } else {
        seq![Tok::Lit(p[0])] + compile(p.drop_first(), false)
    }
}

#[via_fn]
proof fn compile_dec(p: Seq<u8>, at_start: bool) {
    lemma_idx_of(p, 47);
}

/// The token sequence accepts the byte string.
pub open spec fn toks_match(ts: Seq<Tok>, s: Seq<u8>) -> bool
    decreases ts.len(), s.len(),
{
    if ts.len() == 0 {
        s.len() == 0
    } else {
        match ts[0] {
            Tok::Lit(c) => s.len() > 0 && s[0] == c && toks_match(ts.drop_first(), s.drop_first()),
            Tok::Param => exists|k: int|
                1 <= k <= s.len() && (forall|j: int| 0 <= j < k ==> s[j] != 47) && toks_match(
                    ts.drop_first(),
                    s.skip(k),
                ),
            Tok::Any => exists|k: int|
                0 <= k <= s.len() && toks_match(ts.drop_first(), s.skip(k)),
        }
    }
}

/// A pattern accepts a path when the two are equal byte-for-byte, or when
/// the compiled pattern accepts the path.
pub open spec fn path_match(p: Seq<u8>, t: Seq<u8>) -> bool {
    p == t || toks_match(compile(p, true), t)
}

/// Compiles a path pattern.
fn compile_pattern(p: &[u8]) -> (r: Vec<Tok>)
    ensures
        r@ == compile(p@, true),
{
    let mut r: Vec<Tok> = Vec::new();
    let mut i: usize = 0;
    let mut at_start = true;
    proof {
        assert(p@.skip(0) =~= p@);
        assert(r@ + compile(p@, true) =~= compile(p@, true));
    }
    while i < p.len()
        invariant
            i <= p@.len(),
            compile(p@, true) == r@ + compile(p@.skip(i as int), at_start),
        decreases p@.len() - i,
    {
        let ghost rest = p@.skip(i as int);
        let b = p[i];
        assert(rest[0] == b);
        if at_start && b == 58 {
            let tail = vstd::slice::slice_subrange(p, i, p.len());
            let k = find_byte(tail, 47);
            proof {
                lemma_idx_of(tail@, 47);
                assert(tail@ =~= rest);
                assert(rest.skip(idx_of(rest, 47)) =~= p@.skip(i + k));
                assert(r@.push(Tok::Param) + compile(p@.skip(i + k), false) =~= r@ + compile(
                    rest,
                    true,
                ));
            }
            r.push(Tok::Param);
            i = i + k;
            at_start = false;
        } else {
            let tok = if b == 47 {
                Tok::Lit(47)
            } else if b == 42 {
                Tok::Any
            } else {
                Tok::Lit(b)
            };
            proof {
                assert(rest.drop_first() =~= p@.skip(i + 1));
                assert(r@.push(tok) + compile(p@.skip(i + 1), b == 47) =~= r@ + compile(
                    rest,
                    at_start,
                ));
            }
            r.push(tok);
            i = i + 1;
            at_start = b == 47;
        }
    }
    proof {
        assert(p@.skip(i as int) =~= Seq::<u8>::empty());
        assert(r@ + compile(p@.skip(i as int), at_start) =~= r@);
    }
    r
}

/// Backtracking matcher for the token suffix starting at `ti` against the
/// path suffix starting at `si`.
fn match_from(ts: &[Tok], ti: usize, s: &[u8], si: usize) -> (r: bool)
    requires
        ti <= ts@.len(),
        si <= s@.len(),
    ensures
        r == toks_match(ts@.skip(ti as int), s@.skip(si as int)),
    decreases ts@.len() - ti, s@.len() - si,
{
    let ghost tsuf = ts@.skip(ti as int);
    let ghost ssuf = s@.skip(si as int);
    if ti == ts.len() {
        proof {
            assert(tsuf =~= Seq::<Tok>::empty());
        }
        return si == s.len();
    }
    assert(tsuf[0] == ts@[ti as int]);
    proof {
        assert(tsuf.drop_first() =~= ts@.skip(ti + 1));
    }
    match ts[ti] {
        Tok::Lit(c) => {
            if si < s.len() && s[si] == c {
                proof {
                    assert(ssuf.drop_first() =~= s@.skip(si + 1));
                }
                let r = match_from(ts, ti + 1, s, si + 1);
                assert(ssuf[0] == c);
                r
            } else {
                false
            }
        },
        Tok::Param => {
            let n = s.len();
            let mut k: usize = 0;
            while si + k < n && s[si + k] != 47
                invariant
                    si + k <= n,
                    n == s@.len(),
                    forall|j: int| si <= j < si + k ==> s@[j] != 47,
                    forall|m: int|
                        si + 1 <= m <= si + k ==> !toks_match(ts@.skip(ti + 1), s@.skip(m)),
                decreases s@.len() - si - k,
            {
                k = k + 1;
                if match_from(ts, ti + 1, s, si + k) {
                    proof {
                        assert(s@.skip(si + k) =~= ssuf.skip(k as int));
                        assert forall|j: int| 0 <= j < k implies ssuf[j] != 47 by {
                            assert(ssuf[j] == s@[si + j]);
                        }
                        assert(1 <= k as int <= ssuf.len() && (forall|j: int|
                            0 <= j < k ==> ssuf[j] != 47) && toks_match(
                            tsuf.drop_first(),
                            ssuf.skip(k as int),
                        ));
                    }
                    return true;
                }
            }
            proof {
                assert forall|k2: int|
                    1 <= k2 <= ssuf.len() && (forall|j: int| 0 <= j < k2 ==> ssuf[j] != 47)
                        implies !toks_match(tsuf.drop_first(), ssuf.skip(k2)) by {
                    if k2 <= k {
                        assert(s@.skip(si + k2) =~= ssuf.skip(k2));
                    } else {
                        assert(ssuf[k as int] == s@[si + k]);
                        assert(ssuf[k as int] != 47);
                        assert(si + k < s@.len());
                        assert(false);
                    }
                }
            }
            false
        },
        Tok::Any => {
            let n = s.len();
            let mut k: usize = 0;
            while si + k < n
                invariant
                    si + k <= n,
                    n == s@.len(),
                    forall|m: int| si <= m < si + k ==> !toks_match(ts@.skip(ti + 1), s@.skip(m)),
                decreases s@.len() - si - k,
            {
                if match_from(ts, ti + 1, s, si + k) {
                    proof {
                        assert(s@.skip(si + k) =~= ssuf.skip(k as int));
                    }
                    return true;
                }
                k = k + 1;
            }
            if match_from(ts, ti + 1, s, si + k) {
                proof {
                    assert(s@.skip(si + k) =~= ssuf.skip(k as int));
                }
                return true;
            }
            proof {
                assert forall|k2: int| 0 <= k2 <= ssuf.len() implies !toks_match(
                    tsuf.drop_first(),
                    ssuf.skip(k2),
                ) by {
                    assert(s@.skip(si + k2) =~= ssuf.skip(k2));
                }
            }
            false
        },
    }
}

/// Does the condition path pattern accept the request path?
pub fn path_matches(cond_path: &[u8], target_path: &[u8]) -> (r: bool)
    ensures
        r == path_match(cond_path@, target_path@),
{
    if bytes_eq(cond_path, target_path) {
        return true;
    }
    let toks = compile_pattern(cond_path);
    proof {
        assert(toks@.skip(0) =~= toks@);
        assert(target_path@.skip(0) =~= target_path@);
    }
    match_from(toks.as_slice(), 0, target_path, 0)
}

/// First header whose name equals `name` ASCII-case-insensitively.
pub open spec fn header_get(hs: Seq<(Seq<u8>, Seq<u8>)>, name: Seq<u8>) -> Option<Seq<u8>>
    decreases hs.len(),
{
    if hs.len() == 0 {
        Option::None
    } else if upper_seq(hs[0].0) == upper_seq(name) {
        Option::Some(hs[0].1)
    } else {
        header_get(hs.drop_first(), name)
    }
}

/// Looks a header up by name, case-insensitively, first match wins.
pub fn lookup_header<'a>(headers: &'a Vec<(Vec<u8>, Vec<u8>)>, name: &[u8]) -> (r: Option<
    &'a Vec<u8>,
>)
    ensures
        match r {
            Option::Some(v) => header_get(pairs_view(headers@), name@) == Option::Some(v@),
            Option::None => header_get(pairs_view(headers@), name@) is None,
        },
{
    let ghost hv = pairs_view(headers@);
    proof {
        assert(hv.skip(0) =~= hv);
    }
    let mut i: usize = 0;
    while i < headers.len()
        invariant
            i <= headers@.len(),
            hv == pairs_view(headers@),
            hv.len() == headers@.len(),
            forall|j: int| 0 <= j < hv.len() ==> hv[j] == (headers@[j].0@, headers@[j].1@),
            header_get(hv, name@) == header_get(hv.skip(i as int), name@),
        decreases headers@.len() - i,
    {
        proof {
            assert(hv.skip(i as int)[0] == hv[i as int]);
            assert(hv.skip(i as int).drop_first() =~= hv.skip(i + 1));
        }
        if eq_ignore_case(headers[i].0.as_slice(), name) {
            return Some(&headers[i].1);
        }
        i = i + 1;
    }
    proof {
        assert(hv.skip(i as int) =~= Seq::<(Seq<u8>, Seq<u8>)>::empty());
    }
    None
}

/// All constraints a condition places on a request hold of it.
pub open spec fn condition_matches(
    method: Seq<u8>,
    path: Seq<u8>,
    headers: Seq<(Seq<u8>, Seq<u8>)>,
    body: Option<JsonV>,
    c: ConditionV,
) -> bool {
    &&& (match c.method {
        Option::Some(cm) => upper_seq(method) == upper_seq(cm),
        Option::None => true,
    })
    &&& (match c.path {
        Option::Some(cp) => path_match(cp, path),
        Option::None => true,
    })
    &&& (match c.headers {
        Option::Some(ch) => forall|i: int|
            0 <= i < ch.len() ==> header_get(headers, ch[i].0) == Option::Some(ch[i].1),
        Option::None => true,
    })
    &&& (match c.body {
        Option::Some(cb) => body == Option::Some(cb),
        Option::None => true,
    })
}

/// Does the request satisfy every constraint the condition carries?
pub fn matches(
    method: &[u8],
    path: &[u8],
    headers: &Vec<(Vec<u8>, Vec<u8>)>,
    body: &Option<Json>,
    condition: &RequestCondition,
) -> (r: bool)
    ensures
        r == condition_matches(
            method@,
            path@,
            pairs_view(headers@),
            crate::models::opt_json_view(*body),
            condition@,
        ),
{
    if let Option::Some(cond_method) = &condition.method {
        if !eq_ignore_case(method, cond_method.as_slice()) {
            return false;
        }
    }
    if let Option::Some(cond_path) = &condition.path {
        if !path_matches(cond_path.as_slice(), path) {
            return false;
        }
    }
    if let Option::Some(cond_headers) = &condition.headers {
        let ghost chv = pairs_view(cond_headers@);
        let mut i: usize = 0;
        while i < cond_headers.len()
            invariant
                i <= cond_headers@.len(),
                chv == pairs_view(cond_headers@),
                chv.len() == cond_headers@.len(),
                forall|j: int|
                    0 <= j < chv.len() ==> chv[j] == (cond_headers@[j].0@, cond_headers@[j].1@),
                forall|j: int|
                    0 <= j < i ==> header_get(pairs_view(headers@), chv[j].0) == Option::Some(
                        chv[j].1,
                    ),
            decreases cond_headers@.len() - i,
        {
            let (name, expected) = &cond_headers[i];
            match lookup_header(headers, name.as_slice()) {
                Option::Some(v) => {
                    if !bytes_eq(v.as_slice(), expected.as_slice()) {
                        assert(header_get(pairs_view(headers@), chv[i as int].0) != Option::Some(
                            chv[i as int].1,
                        ));
                        return false;
                    }
                },
                Option::None => {
                    assert(header_get(pairs_view(headers@), chv[i as int].0) != Option::Some(
                        chv[i as int].1,
                    ));
                    return false;
                },
            }
            i = i + 1;
        }
    }
    if let Option::Some(cond_body) = &condition.body {
        match body {
            Option::Some(req_body) => {
                if !json_eq(req_body, cond_body) {
                    return false;
                }
            },
            Option::None => {
                return false;
            },
        }
    }
    true
}

/// A pattern with no parameter and no wildcard bytes compiles to its own
/// literal tokens.
pub proof fn lemma_compile_literal(p: Seq<u8>, at_start: bool)
    requires
        forall|i: int| 0 <= i < p.len() ==> p[i] != 42 && p[i] != 58,
    ensures
        compile(p, at_start) == p.map_values(|b: u8| Tok::Lit(b)),
    decreases p.len(),
{
    if p.len() > 0 {
        lemma_compile_literal(p.drop_first(), true);
        lemma_compile_literal(p.drop_first(), false);
        assert(compile(p, at_start) =~= p.map_values(|b: u8| Tok::Lit(b)));
    } else {
        assert(compile(p, at_start) =~= p.map_values(|b: u8| Tok::Lit(b)));
    }
}

/// Literal tokens accept exactly their own text.
pub proof fn lemma_lit_toks_match(p: Seq<u8>)
    ensures
        toks_match(p.map_values(|b: u8| Tok::Lit(b)), p),
    decreases p.len(),
{
    if p.len() > 0 {
        lemma_lit_toks_match(p.drop_first());
        assert(p.map_values(|b: u8| Tok::Lit(b)).drop_first() =~= p.drop_first().map_values(
            |b: u8| Tok::Lit(b),
        ));
    }
}

/// A pattern that contains no special bytes (`*`, `:`) accepts itself,
/// both byte-for-byte and through its compiled tokens.
pub proof fn lemma_pattern_matches_itself(p: Seq<u8>)
    requires
        forall|i: int| 0 <= i < p.len() ==> p[i] != 42 && p[i] != 58,
    ensures
        path_match(p, p),
        toks_match(compile(p, true), p),
{
    lemma_compile_literal(p, true);
    lemma_lit_toks_match(p);
}

} // verus!
