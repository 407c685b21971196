//! The templating engine: `{{path[i]}}` and `{{body.<selector>}}`
//! placeholders with optional `:string`, `:int` and `:bool` filters,
//! resolved against the request's path segments and parsed body.

use vstd::prelude::*;

use crate::json::{
    false_text, json_clone, json_text, json_to_text, json_view, lemma_arr_view, lit_false,
    lit_null, lit_true, null_text, obj_get, obj_lookup, remove_quote_bytes, remove_quotes,
    true_text, Json, JsonV,
};
use crate::models::opt_json_view;
use crate::text::{
    all_digits, append_bytes, digits_val, int_text_val, int_text_wf, parse_i64, parse_u64,
    split_nonempty, split_nonempty_bytes,
};

verus! {

/// The optional type filter of a placeholder.
#[derive(Clone, Copy, PartialEq, Eq, Structural)]
pub enum Filt {
    /// No filter: heuristic typing for path refs, verbatim insertion for
    /// body refs.
    Plain,
    /// `:string` — force a JSON string.
    AsStr,
    /// `:int` — parse the underlying text as a 64-bit integer, else null.
    AsInt,
    /// `:bool` — `true` or `false`, else null.
    AsBool,
}

/// `s` starts with `{{path[`.
pub open spec fn is_path_open(s: Seq<u8>) -> bool {
    s.len() >= 7 && s[0] == 123 && s[1] == 123 && s[2] == 112 && s[3] == 97 && s[4] == 116 && s[5]
        == 104 && s[6] == 91
}

/// `s` starts with `{{body`.
pub open spec fn is_body_open(s: Seq<u8>) -> bool {
    s.len() >= 6 && s[0] == 123 && s[1] == 123 && s[2] == 98 && s[3] == 111 && s[4] == 100 && s[5]
        == 121
}

/// Parses the filter-and-close suffix of a placeholder: `}}`, `:string}}`,
/// `:int}}` or `:bool}}`. Returns the filter and the consumed length.
pub open spec fn parse_filt(s: Seq<u8>) -> Option<(Filt, int)> {
    if s.len() >= 2 && s[0] == 125 && s[1] == 125 {
        Option::Some((Filt::Plain, 2))
    } else if s.len() >= 9 && s[0] == 58 && s[1] == 115 && s[2] == 116 && s[3] == 114 && s[4] == 105
        && s[5] == 110 && s[6] == 103 && s[7] == 125 && s[8] == 125 {
        Option::Some((Filt::AsStr, 9))
    } else if s.len() >= 6 && s[0] == 58 && s[1] == 105 && s[2] == 110 && s[3] == 116 && s[4] == 125
        && s[5] == 125 {
        Option::Some((Filt::AsInt, 6))
    } else if s.len() >= 7 && s[0] == 58 && s[1] == 98 && s[2] == 111 && s[3] == 111 && s[4] == 108
        && s[5] == 125 && s[6] == 125 {
        Option::Some((Filt::AsBool, 7))
    } else {
        Option::None
    }
}

/// Length of the decimal-digit prefix of `s`.
pub open spec fn digit_run(s: Seq<u8>) -> int
    decreases s.len(),
{
    if s.len() == 0 {
        0
    } else if 48 <= s[0] <= 57 {
        1 + digit_run(s.drop_first())
    } else {
        0
    }
}

pub proof fn lemma_digit_run(s: Seq<u8>)
    ensures
        0 <= digit_run(s) <= s.len(),
        forall|j: int| 0 <= j < digit_run(s) ==> 48 <= #[trigger] s[j] <= 57,
        digit_run(s) < s.len() ==> !(48 <= s[digit_run(s)] <= 57),
    decreases s.len(),
{
    if s.len() > 0 && 48 <= s[0] <= 57 {
        lemma_digit_run(s.drop_first());
        assert forall|j: int| 0 <= j < digit_run(s) implies 48 <= #[trigger] s[j] <= 57 by {
            if j > 0 {
                assert(s.drop_first()[j - 1] == s[j]);
            }
        }
    }
}

/// A byte a body selector may contain: letters, digits, `_`, `.`, `[`, `]`.
pub open spec fn sel_byte(b: u8) -> bool {
    (48 <= b <= 57) || (65 <= b <= 90) || (97 <= b <= 122) || b == 95 || b == 46 || b == 91 || b
        == 93
}

/// Length of the selector-byte prefix of `s`.
pub open spec fn sel_run(s: Seq<u8>) -> int
    decreases s.len(),
{
    if s.len() == 0 {
        0
    } else if sel_byte(s[0]) {
        1 + sel_run(s.drop_first())
    } else {
        0
    }
}

pub proof fn lemma_sel_run(s: Seq<u8>)
    ensures
        0 <= sel_run(s) <= s.len(),
        forall|j: int| 0 <= j < sel_run(s) ==> sel_byte(#[trigger] s[j]),
        sel_run(s) < s.len() ==> !sel_byte(s[sel_run(s)]),
    decreases s.len(),
{
    if s.len() > 0 && sel_byte(s[0]) {
        lemma_sel_run(s.drop_first());
        assert forall|j: int| 0 <= j < sel_run(s) implies sel_byte(#[trigger] s[j]) by {
            if j > 0 {
                assert(s.drop_first()[j - 1] == s[j]);
            }
        }
    }
}

/// Parses a `{{path[N]}}` placeholder at the start of `s`: the digit text
/// of the index, the filter, and the total length consumed.
pub open spec fn parse_path_ph(s: Seq<u8>) -> Option<(Seq<u8>, Filt, int)> {
    if is_path_open(s) {
        let rest = s.skip(7);
        let d = digit_run(rest);
        if d >= 1 && d < rest.len() && rest[d] == 93 {
            match parse_filt(rest.skip(d + 1)) {
                Option::Some((f, c)) => Option::Some((rest.take(d), f, 8 + d + c)),
                Option::None => Option::None,
            }
        } else {
            Option::None
        }
    } else {
        Option::None
    }
}

/// Parses a `{{body<selector>}}` placeholder at the start of `s`: the
/// selector (with its leading `.` or `[`), the filter, and the total
/// length consumed.
pub open spec fn parse_body_ph(s: Seq<u8>) -> Option<(Seq<u8>, Filt, int)> {
    if is_body_open(s) && s.len() >= 7 && (s[6] == 46 || s[6] == 91) {
        let m = sel_run(s.skip(7));
        if m >= 1 {
            match parse_filt(s.skip(7 + m)) {
                Option::Some((f, c)) => Option::Some((s.subrange(6, 7 + m), f, 7 + m + c)),
                Option::None => Option::None,
            }
        } else {
            Option::None
        }
    } else {
        Option::None
    }
}

pub proof fn lemma_parse_path_ph_len(s: Seq<u8>)
    ensures
        match parse_path_ph(s) {
            Option::Some((dg, f, l)) => 11 <= l <= s.len(),
            Option::None => true,
        },
{
    if parse_path_ph(s) is Some {
        lemma_digit_run(s.skip(7));
    }
}

pub proof fn lemma_parse_body_ph_len(s: Seq<u8>)
    ensures
        match parse_body_ph(s) {
            Option::Some((sel, f, l)) => 10 <= l <= s.len(),
            Option::None => true,
        },
{
    if parse_body_ph(s) is Some {
        lemma_sel_run(s.skip(7));
    }
}

/// Exec mirror of `parse_filt`.
fn try_filt(s: &[u8]) -> (r: Option<(Filt, usize)>)
    ensures
        match r {
            Option::Some((f, c)) => parse_filt(s@) == Option::Some((f, c as int)),
            Option::None => parse_filt(s@) is None,
        },
{
    if s.len() >= 2 && s[0] == 125 && s[1] == 125 {
        Some((Filt::Plain, 2))
    } else if s.len() >= 9 && s[0] == 58 && s[1] == 115 && s[2] == 116 && s[3] == 114 && s[4] == 105
        && s[5] == 110 && s[6] == 103 && s[7] == 125 && s[8] == 125 {
        Some((Filt::AsStr, 9))
    } else if s.len() >= 6 && s[0] == 58 && s[1] == 105 && s[2] == 110 && s[3] == 116 && s[4] == 125
        && s[5] == 125 {
        Some((Filt::AsInt, 6))
    } else if s.len() >= 7 && s[0] == 58 && s[1] == 98 && s[2] == 111 && s[3] == 111 && s[4] == 108
        && s[5] == 125 && s[6] == 125 {
        Some((Filt::AsBool, 7))
    } else {
        None
    }
}

/// Exec length of the digit prefix of `s`.
fn digit_run_len(s: &[u8]) -> (r: usize)
    ensures
        r == digit_run(s@),
{
    proof {
        lemma_digit_run(s@);
    }
    let mut i: usize = 0;
    while i < s.len() && 48 <= s[i] && s[i] <= 57
        invariant
            i <= s@.len(),
            forall|j: int| 0 <= j < i ==> 48 <= #[trigger] s@[j] <= 57,
        decreases s@.len() - i,
    {
        i = i + 1;
    }
    i
}

/// Exec test for a selector byte.
fn is_sel_byte(b: u8) -> (r: bool)
    ensures
        r == sel_byte(b),
{
    (48 <= b && b <= 57) || (65 <= b && b <= 90) || (97 <= b && b <= 122) || b == 95 || b == 46
        || b == 91 || b == 93
}

/// Exec length of the selector-byte prefix of `s`.
fn sel_run_len(s: &[u8]) -> (r: usize)
    ensures
        r == sel_run(s@),
{
    proof {
        lemma_sel_run(s@);
    }
    let mut i: usize = 0;
    while i < s.len() && is_sel_byte(s[i])
        invariant
            i <= s@.len(),
            forall|j: int| 0 <= j < i ==> sel_byte(#[trigger] s@[j]),
        decreases s@.len() - i,
    {
        i = i + 1;
    }
    i
}

/// Exec mirror of `parse_path_ph`. The digit text is returned as a copy.
fn try_path_ph(s: &[u8]) -> (r: Option<(Vec<u8>, Filt, usize)>)
    ensures
        match r {
            Option::Some((dg, f, l)) => parse_path_ph(s@) == Option::Some((dg@, f, l as int)),
            Option::None => parse_path_ph(s@) is None,
        },
{
    if !(s.len() >= 7 && s[0] == 123 && s[1] == 123 && s[2] == 112 && s[3] == 97 && s[4] == 116
        && s[5] == 104 && s[6] == 91) {
        return None;
    }
    let rest = vstd::slice::slice_subrange(s, 7, s.len());
    proof {
        assert(rest@ =~= s@.skip(7));
        lemma_digit_run(rest@);
    }
    let d = digit_run_len(rest);
    if d >= 1 && d < rest.len() && rest[d] == 93 {
        let after = vstd::slice::slice_subrange(rest, d + 1, rest.len());
        proof {
            assert(after@ =~= s@.skip(7).skip(d + 1));
        }
        match try_filt(after) {
            Option::Some((f, c)) => {
                let dg = vstd::slice::slice_to_vec(vstd::slice::slice_subrange(rest, 0, d));
                proof {
                    assert(dg@ =~= s@.skip(7).take(d as int));
                }
                Some((dg, f, 8 + d + c))
            },
            Option::None => None,
        }
    } else {
        None
    }
}

/// Exec mirror of `parse_body_ph`. The selector is returned as a copy.
fn try_body_ph(s: &[u8]) -> (r: Option<(Vec<u8>, Filt, usize)>)
    ensures
        match r {
            Option::Some((sel, f, l)) => parse_body_ph(s@) == Option::Some((sel@, f, l as int)),
            Option::None => parse_body_ph(s@) is None,
        },
{
    if !(s.len() >= 7 && s[0] == 123 && s[1] == 123 && s[2] == 98 && s[3] == 111 && s[4] == 100
        && s[5] == 121 && (s[6] == 46 || s[6] == 91)) {
        return None;
    }
    let rest = vstd::slice::slice_subrange(s, 7, s.len());
    proof {
        assert(rest@ =~= s@.skip(7));
        lemma_sel_run(rest@);
    }
    let m = sel_run_len(rest);
    if m >= 1 {
        let after = vstd::slice::slice_subrange(rest, m, rest.len());
        proof {
            assert(after@ =~= s@.skip(7 + m));
        }
        match try_filt(after) {
            Option::Some((f, c)) => {
                let sel = vstd::slice::slice_to_vec(vstd::slice::slice_subrange(s, 6, 7 + m));
                proof {
                    assert(sel@ =~= s@.subrange(6, 7 + m));
                }
                Some((sel, f, 7 + m + c))
            },
            Option::None => None,
        }
    } else {
        None
    }
}

pub proof fn lemma_parse_path_ph_digits(s: Seq<u8>)
    ensures
        match parse_path_ph(s) {
            Option::Some((dg, f, l)) => all_digits(dg) && dg.len() >= 1,
            Option::None => true,
        },
{
    if parse_path_ph(s) is Some {
        lemma_digit_run(s.skip(7));
        let rest = s.skip(7);
        let d = digit_run(rest);
        assert forall|j: int| 0 <= j < rest.take(d).len() implies 48 <= #[trigger] rest.take(d)[j]
            <= 57 by {
            assert(rest.take(d)[j] == rest[j]);
        }
    }
}

/// The path segment index a digit text selects: its value, or 999 when it
/// does not fit 64 bits.
pub open spec fn path_index(digits: Seq<u8>) -> int {
    if digits_val(digits) <= u64::MAX {
        digits_val(digits)
    } else {
        999
    }
}

/// Text a path reference produces in string mode: the raw segment, or
/// `null` when the index is out of bounds.
pub open spec fn path_ref_text(segs: Seq<Seq<u8>>, digits: Seq<u8>) -> Seq<u8> {
    if 0 <= path_index(digits) < segs.len() {
        segs[path_index(digits)]
    } else {
        null_text()
    }
}

/// A selector with `[n]` rewritten to `.n`.
pub open spec fn normalize_sel(s: Seq<u8>) -> Seq<u8>
    decreases s.len(),
{
    if s.len() == 0 {
        Seq::empty()
    } else {
        (if s[0] == 91 {
            seq![46u8]
        } else if s[0] == 93 {
            Seq::<u8>::empty()
        } else {
            seq![s[0]]
        }) + normalize_sel(s.drop_first())
    }
}

/// The parts of a selector: normalized, split at dots, empties dropped.
pub open spec fn sel_parts(sel: Seq<u8>) -> Seq<Seq<u8>> {
    split_nonempty(normalize_sel(sel), 46)
}

/// A selector part that addresses an array element: all digits, value
/// within 64 bits.
pub open spec fn is_index_part(part: Seq<u8>) -> bool {
    part.len() >= 1 && all_digits(part) && digits_val(part) <= u64::MAX
}

/// Walks the body along the selector parts: index parts step into arrays,
/// the rest are object keys. Any mismatch is a miss.
pub open spec fn json_select(v: JsonV, parts: Seq<Seq<u8>>) -> Option<JsonV>
    decreases parts.len(),
{
    if parts.len() == 0 {
        Option::Some(v)
    } else if is_index_part(parts[0]) {
        match v {
            JsonV::Arr(a) => {
                if digits_val(parts[0]) < a.len() {
                    json_select(a[digits_val(parts[0])], parts.drop_first())
                } else {
                    Option::None
                }
            },
            _ => Option::None,
        }
    } else {
        match v {
            JsonV::Obj(o) => match obj_get(o, parts[0]) {
                Option::Some(x) => json_select(x, parts.drop_first()),
                Option::None => Option::None,
            },
            _ => Option::None,
        }
    }
}

/// Exec mirror of `normalize_sel`.
fn normalize_sel_bytes(s: &[u8]) -> (r: Vec<u8>)
    ensures
        r@ == normalize_sel(s@),
{
    let mut out: Vec<u8> = Vec::new();
    let mut i: usize = 0;
    proof {
        assert(s@.skip(0) =~= s@);
        assert(out@ + normalize_sel(s@) =~= normalize_sel(s@));
    }
    while i < s.len()
        invariant
            i <= s@.len(),
            normalize_sel(s@) == out@ + normalize_sel(s@.skip(i as int)),
        decreases s@.len() - i,
    {
        let ghost rest = s@.skip(i as int);
        assert(rest[0] == s@[i as int]);
        proof {
            assert(rest.drop_first() =~= s@.skip(i + 1));
        }
        let b = s[i];
        let ghost out0 = out@;
        if b == 91 {
            out.push(46);
            proof {
                assert(out@ + normalize_sel(s@.skip(i + 1)) =~= out0 + normalize_sel(rest));
            }
        } else if b == 93 {
            proof {
                assert(out@ + normalize_sel(s@.skip(i + 1)) =~= out0 + normalize_sel(rest));
            }
        } else {
            out.push(b);
            proof {
                assert(out@ + normalize_sel(s@.skip(i + 1)) =~= out0 + normalize_sel(rest));
            }
        }
        i = i + 1;
    }
    proof {
        assert(s@.skip(i as int) =~= Seq::<u8>::empty());
        assert(out@ + normalize_sel(s@.skip(i as int)) =~= out@);
    }
    out
}

/// Resolves a `body` selector against a JSON value, as the original
/// selector text has it (before normalization).
pub fn get_value_by_path<'a>(body: &'a Json, sel: &[u8]) -> (r: Option<&'a Json>)
    ensures
        match r {
            Option::Some(v) => json_select(body@, sel_parts(sel@)) == Option::Some(v@),
            Option::None => json_select(body@, sel_parts(sel@)) is None,
        },
{
    let norm = normalize_sel_bytes(sel);
    let parts = split_nonempty_bytes(norm.as_slice(), 46);
    let ghost pv = sel_parts(sel@);
    proof {
        assert(parts.deep_view() == pv);
        assert(pv.skip(0) =~= pv);
    }
    let mut cur: &Json = body;
    let mut i: usize = 0;
    while i < parts.len()
        invariant
            i <= parts@.len(),
            pv.len() == parts@.len(),
            forall|j: int| 0 <= j < pv.len() ==> pv[j] == parts@[j]@,
            json_select(body@, pv) == json_select(cur@, pv.skip(i as int)),
        decreases parts@.len() - i,
    {
        let ghost rest = pv.skip(i as int);
        assert(rest[0] == pv[i as int]);
        proof {
            assert(rest.drop_first() =~= pv.skip(i + 1));
        }
        let part = &parts[i];
        match parse_u64(part.as_slice()) {
            Option::Some(n) => {
                match cur {
                    Json::Arr(a) => {
                        proof {
                            lemma_arr_view(a@);
                        }
                        if n < a.len() as u64 {
                            cur = &a[n as usize];
                        } else {
                            return None;
                        }
                    },
                    _ => {
                        return None;
                    },
                }
            },
            Option::None => {
                match cur {
                    Json::Obj(o) => {
                        match obj_lookup(o, part.as_slice()) {
                            Option::Some(v) => {
                                cur = v;
                            },
                            Option::None => {
                                return None;
                            },
                        }
                    },
                    _ => {
                        return None;
                    },
                }
            },
        }
        i = i + 1;
    }
    proof {
        assert(pv.skip(i as int) =~= Seq::<Seq<u8>>::empty());
    }
    Some(cur)
}

/// Text a body reference produces in string mode: the raw string for
/// string values, otherwise the serialized JSON with every double quote
/// removed; `null` on a miss.
pub open spec fn body_ref_text(body: Option<JsonV>, sel: Seq<u8>) -> Seq<u8> {
    match body {
        Option::None => null_text(),
        Option::Some(b) => match json_select(b, sel_parts(sel)) {
            Option::None => null_text(),
            Option::Some(v) => match v {
                JsonV::Str(x) => x,
                _ => remove_quotes(json_text(v)),
            },
        },
    }
}

/// String-mode pass over path references: each `{{path[N]}}` becomes the
/// raw segment text (any filter is ignored in string mode).
pub open spec fn subst_path_str(s: Seq<u8>, segs: Seq<Seq<u8>>) -> Seq<u8>
    decreases s.len(),
    via subst_path_str_dec
{
    if s.len() == 0 {
        Seq::empty()
    } else {
        match parse_path_ph(s) {
            Option::Some((dg, f, l)) => path_ref_text(segs, dg) + subst_path_str(s.skip(l), segs),
            Option::None => seq![s[0]] + subst_path_str(s.drop_first(), segs),
        }
    }
}

#[via_fn]
proof fn subst_path_str_dec(s: Seq<u8>, segs: Seq<Seq<u8>>) {
    lemma_parse_path_ph_len(s);
}

/// String-mode pass over body references.
pub open spec fn subst_body_str(s: Seq<u8>, body: Option<JsonV>) -> Seq<u8>
    decreases s.len(),
    via subst_body_str_dec
{
    if s.len() == 0 {
        Seq::empty()
    } else {
        match parse_body_ph(s) {
            Option::Some((sel, f, l)) => body_ref_text(body, sel) + subst_body_str(s.skip(l), body),
            Option::None => seq![s[0]] + subst_body_str(s.drop_first(), body),
        }
    }
}

#[via_fn]
proof fn subst_body_str_dec(s: Seq<u8>, body: Option<JsonV>) {
    lemma_parse_body_ph_len(s);
}

/// String-mode template resolution: all path references are substituted
/// first, then all body references in the result.
pub open spec fn resolve_template_text(
    t: Seq<u8>,
    segs: Seq<Seq<u8>>,
    body: Option<JsonV>,
) -> Seq<u8> {
    subst_body_str(subst_path_str(t, segs), body)
}

/// Appends the string-mode text of a path reference.
fn push_path_ref_text(out: &mut Vec<u8>, segs: &Vec<Vec<u8>>, dg: &[u8])
    requires
        all_digits(dg@),
        dg@.len() >= 1,
    ensures
        final(out)@ == old(out)@ + path_ref_text(segs.deep_view(), dg@),
{
    proof {
        assert(segs.deep_view().len() == segs@.len());
        assert(forall|j: int|
            0 <= j < segs@.len() ==> segs.deep_view()[j] == #[trigger] segs@[j]@);
    }
    match parse_u64(dg) {
        Option::Some(n) => {
            if n < segs.len() as u64 {
                append_bytes(out, segs[n as usize].as_slice());
            } else {
                let lit = lit_null();
                append_bytes(out, lit.as_slice());
            }
        },
        Option::None => {
            if segs.len() > 999 {
                append_bytes(out, segs[999].as_slice());
            } else {
                let lit = lit_null();
                append_bytes(out, lit.as_slice());
            }
        },
    }
}

/// Appends the string-mode text of a body reference.
fn push_body_ref_text(out: &mut Vec<u8>, body: &Option<Json>, sel: &[u8])
    ensures
        final(out)@ == old(out)@ + body_ref_text(opt_json_view(*body), sel@),
{
    match body {
        Option::None => {
            let lit = lit_null();
            append_bytes(out, lit.as_slice());
        },
        Option::Some(b) => {
            match get_value_by_path(b, sel) {
                Option::None => {
                    let lit = lit_null();
                    append_bytes(out, lit.as_slice());
                },
                Option::Some(v) => {
                    match v {
                        Json::Str(x) => {
                            append_bytes(out, x.as_slice());
                        },
                        _ => {
                            let txt = json_to_text(v);
                            let stripped = remove_quote_bytes(txt.as_slice());
                            append_bytes(out, stripped.as_slice());
                        },
                    }
                },
            }
        },
    }
}

/// First string-mode pass: substitutes every path reference.
fn subst_path_pass(t: &[u8], segs: &Vec<Vec<u8>>) -> (r: Vec<u8>)
    ensures
        r@ == subst_path_str(t@, segs.deep_view()),
{
    let ghost sv = segs.deep_view();
    let mut out: Vec<u8> = Vec::new();
    let mut i: usize = 0;
    proof {
        assert(t@.skip(0) =~= t@);
        assert(out@ + subst_path_str(t@, sv) =~= subst_path_str(t@, sv));
    }
    while i < t.len()
        invariant
            i <= t@.len(),
            sv == segs.deep_view(),
            subst_path_str(t@, sv) == out@ + subst_path_str(t@.skip(i as int), sv),
        decreases t@.len() - i,
    {
        let ghost rest = t@.skip(i as int);
        let suffix = vstd::slice::slice_subrange(t, i, t.len());
        proof {
            assert(suffix@ =~= rest);
        }
        let ghost out0 = out@;
        match try_path_ph(suffix) {
            Option::Some((dg, _f, l)) => {
                proof {
                    lemma_parse_path_ph_len(rest);
                    lemma_parse_path_ph_digits(rest);
                    assert(rest.skip(l as int) =~= t@.skip(i + l));
                }
                push_path_ref_text(&mut out, segs, dg.as_slice());
                proof {
                    assert(out@ + subst_path_str(t@.skip(i + l), sv) =~= out0 + subst_path_str(
                        rest,
                        sv,
                    ));
                }
                i = i + l;
            },
            Option::None => {
                assert(rest[0] == t@[i as int]);
                proof {
                    assert(rest.drop_first() =~= t@.skip(i + 1));
                }
                out.push(t[i]);
                proof {
                    assert(out@ + subst_path_str(t@.skip(i + 1), sv) =~= out0 + subst_path_str(
                        rest,
                        sv,
                    ));
                }
                i = i + 1;
            },
        }
    }
    proof {
        assert(t@.skip(i as int) =~= Seq::<u8>::empty());
        assert(out@ + subst_path_str(t@.skip(i as int), sv) =~= out@);
    }
    out
}

/// Second string-mode pass: substitutes every body reference.
fn subst_body_pass(t: &[u8], body: &Option<Json>) -> (r: Vec<u8>)
    ensures
        r@ == subst_body_str(t@, opt_json_view(*body)),
{
    let ghost bv = opt_json_view(*body);
    let mut out: Vec<u8> = Vec::new();
    let mut i: usize = 0;
    proof {
        assert(t@.skip(0) =~= t@);
        assert(out@ + subst_body_str(t@, bv) =~= subst_body_str(t@, bv));
    }
    while i < t.len()
        invariant
            i <= t@.len(),
            bv == opt_json_view(*body),
            subst_body_str(t@, bv) == out@ + subst_body_str(t@.skip(i as int), bv),
        decreases t@.len() - i,
    {
        let ghost rest = t@.skip(i as int);
        let suffix = vstd::slice::slice_subrange(t, i, t.len());
        proof {
            assert(suffix@ =~= rest);
        }
        let ghost out0 = out@;
        match try_body_ph(suffix) {
            Option::Some((sel, _f, l)) => {
                proof {
                    lemma_parse_body_ph_len(rest);
                    assert(rest.skip(l as int) =~= t@.skip(i + l));
                }
                push_body_ref_text(&mut out, body, sel.as_slice());
                proof {
                    assert(out@ + subst_body_str(t@.skip(i + l), bv) =~= out0 + subst_body_str(
                        rest,
                        bv,
                    ));
                }
                i = i + l;
            },
            Option::None => {
                assert(rest[0] == t@[i as int]);
                proof {
                    assert(rest.drop_first() =~= t@.skip(i + 1));
                }
                out.push(t[i]);
                proof {
                    assert(out@ + subst_body_str(t@.skip(i + 1), bv) =~= out0 + subst_body_str(
                        rest,
                        bv,
                    ));
                }
                i = i + 1;
            },
        }
    }
    proof {
        assert(t@.skip(i as int) =~= Seq::<u8>::empty());
        assert(out@ + subst_body_str(t@.skip(i as int), bv) =~= out@);
    }
    out
}

/// String-mode template resolution: substitutes placeholders inside a
/// text, path references first, body references second.
pub fn resolve_template(template: &[u8], path_segments: &Vec<Vec<u8>>, body: &Option<Json>) -> (r:
    Vec<u8>)
    ensures
        r@ == resolve_template_text(template@, path_segments.deep_view(), opt_json_view(*body)),
{
    let pass1 = subst_path_pass(template, path_segments);
    subst_body_pass(pass1.as_slice(), body)
}

/// Heuristic typing of raw path-segment text: `true`/`false` become
/// booleans, integer text becomes a number, anything else stays a string.
pub open spec fn heuristic_value(s: Seq<u8>) -> JsonV {
    if s == true_text() {
        JsonV::Bool(true)
    } else if s == false_text() {
        JsonV::Bool(false)
    } else if int_text_wf(s) && i64::MIN <= int_text_val(s) <= i64::MAX {
        JsonV::Int(int_text_val(s))
    } else {
        JsonV::Str(s)
    }
}

/// The text a filter works on: the raw bytes of a string value, the
/// serialized text of anything else.
pub open spec fn underlying_text(v: JsonV) -> Seq<u8> {
    match v {
        JsonV::Str(x) => x,
        _ => json_text(v),
    }
}

/// Applies a filter to a referenced value.
pub open spec fn filtered_value(v: JsonV, f: Filt) -> JsonV {
    match f {
        Filt::Plain => v,
        Filt::AsStr => JsonV::Str(underlying_text(v)),
        Filt::AsInt => {
            let t = underlying_text(v);
            if int_text_wf(t) && i64::MIN <= int_text_val(t) <= i64::MAX {
                JsonV::Int(int_text_val(t))
            } else {
                JsonV::Null
            }
        },
        Filt::AsBool => {
            let t = underlying_text(v);
            if t == true_text() {
                JsonV::Bool(true)
            } else if t == false_text() {
                JsonV::Bool(false)
            } else {
                JsonV::Null
            }
        },
    }
}

/// Value a whole-string path reference produces: null when the index is
/// out of bounds, otherwise the filtered (or heuristically typed) segment.
pub open spec fn path_ref_value(segs: Seq<Seq<u8>>, digits: Seq<u8>, f: Filt) -> JsonV {
    if 0 <= path_index(digits) < segs.len() {
        let raw = segs[path_index(digits)];
        match f {
            Filt::Plain => heuristic_value(raw),
            _ => filtered_value(JsonV::Str(raw), f),
        }
    } else {
        JsonV::Null
    }
}

/// Value a whole-string body reference produces: the referenced value
/// (filtered), or null on a miss.
pub open spec fn body_ref_value(body: Option<JsonV>, sel: Seq<u8>, f: Filt) -> JsonV {
    match body {
        Option::None => JsonV::Null,
        Option::Some(b) => match json_select(b, sel_parts(sel)) {
            Option::None => JsonV::Null,
            Option::Some(v) => filtered_value(v, f),
        },
    }
}

/// Value-mode rendering: strings that are exactly one placeholder become
/// typed values, other strings go through string-mode substitution, and
/// arrays and objects are rendered recursively.
pub open spec fn resolve_value(v: JsonV, segs: Seq<Seq<u8>>, body: Option<JsonV>) -> JsonV
    decreases v,
{
    match v {
        JsonV::Str(s) => {
            match parse_path_ph(s) {
                Option::Some((dg, f, l)) => {
                    if l == s.len() {
                        path_ref_value(segs, dg, f)
                    } else {
                        JsonV::Str(resolve_template_text(s, segs, body))
                    }
                },
                Option::None => {
                    match parse_body_ph(s) {
                        Option::Some((sel, f, l)) => {
                            if l == s.len() {
                                body_ref_value(body, sel, f)
                            } else {
                                JsonV::Str(resolve_template_text(s, segs, body))
                            }
                        },
                        Option::None => JsonV::Str(resolve_template_text(s, segs, body)),
                    }
                },
            }
        },
        JsonV::Arr(a) => JsonV::Arr(resolve_list(a, segs, body)),
        JsonV::Obj(o) => JsonV::Obj(resolve_obj(o, segs, body)),
        _ => v,
    }
}

pub open spec fn resolve_list(a: Seq<JsonV>, segs: Seq<Seq<u8>>, body: Option<JsonV>) -> Seq<JsonV>
    decreases a,
{
    if a.len() == 0 {
        Seq::empty()
    } else {
        resolve_list(a.drop_last(), segs, body).push(resolve_value(a.last(), segs, body))
    }
}

pub open spec fn resolve_obj(
    o: Seq<(Seq<u8>, JsonV)>,
    segs: Seq<Seq<u8>>,
    body: Option<JsonV>,
) -> Seq<(Seq<u8>, JsonV)>
    decreases o,
{
    if o.len() == 0 {
        Seq::empty()
    } else {
        resolve_obj(o.drop_last(), segs, body).push(
            (o.last().0, resolve_value(o.last().1, segs, body)),
        )
    }
}

pub proof fn lemma_resolve_list(a: Seq<JsonV>, segs: Seq<Seq<u8>>, body: Option<JsonV>)
    ensures
        resolve_list(a, segs, body).len() == a.len(),
        forall|i: int|
            0 <= i < a.len() ==> resolve_list(a, segs, body)[i] == resolve_value(a[i], segs, body),
    decreases a,
{
    if a.len() > 0 {
        lemma_resolve_list(a.drop_last(), segs, body);
    }
}

pub proof fn lemma_resolve_obj(o: Seq<(Seq<u8>, JsonV)>, segs: Seq<Seq<u8>>, body: Option<JsonV>)
    ensures
        resolve_obj(o, segs, body).len() == o.len(),
        forall|i: int|
            0 <= i < o.len() ==> resolve_obj(o, segs, body)[i] == (
                o[i].0,
                resolve_value(o[i].1, segs, body),
            ),
    decreases o,
{
    if o.len() > 0 {
        lemma_resolve_obj(o.drop_last(), segs, body);
    }
}

/// Heuristically types raw segment text.
fn attempt_parse_string(raw: &[u8]) -> (r: Json)
    ensures
        r@ == heuristic_value(raw@),
{
    let t = lit_true();
    if crate::text::bytes_eq(raw, t.as_slice()) {
        return Json::Bool(true);
    }
    let f = lit_false();
    if crate::text::bytes_eq(raw, f.as_slice()) {
        return Json::Bool(false);
    }
    match parse_i64(raw) {
        Option::Some(n) => Json::Int(n),
        Option::None => Json::Str(vstd::slice::slice_to_vec(raw)),
    }
}

/// Applies a filter to a referenced value.
fn apply_filter(v: &Json, f: Filt) -> (r: Json)
    ensures
        r@ == filtered_value(v@, f),
{
    match f {
        Filt::Plain => json_clone(v),
        Filt::AsStr => {
            match v {
                Json::Str(x) => Json::Str(vstd::slice::slice_to_vec(x.as_slice())),
                _ => Json::Str(json_to_text(v)),
            }
        },
        Filt::AsInt => {
            let t = match v {
                Json::Str(x) => vstd::slice::slice_to_vec(x.as_slice()),
                _ => json_to_text(v),
            };
            match parse_i64(t.as_slice()) {
                Option::Some(n) => Json::Int(n),
                Option::None => Json::Null,
            }
        },
        Filt::AsBool => {
            let t = match v {
                Json::Str(x) => vstd::slice::slice_to_vec(x.as_slice()),
                _ => json_to_text(v),
            };
            let tl = lit_true();
            if crate::text::bytes_eq(t.as_slice(), tl.as_slice()) {
                return Json::Bool(true);
            }
            let fl = lit_false();
            if crate::text::bytes_eq(t.as_slice(), fl.as_slice()) {
                return Json::Bool(false);
            }
            Json::Null
        },
    }
}

/// Value of a whole-string path reference.
fn path_ref_value_exec(segs: &Vec<Vec<u8>>, dg: &[u8], f: Filt) -> (r: Json)
    requires
        all_digits(dg@),
        dg@.len() >= 1,
    ensures
        r@ == path_ref_value(segs.deep_view(), dg@, f),
{
    proof {
        assert(segs.deep_view().len() == segs@.len());
        assert(forall|j: int|
            0 <= j < segs@.len() ==> segs.deep_view()[j] == #[trigger] segs@[j]@);
    }
    let idx_opt: Option<usize> = match parse_u64(dg) {
        Option::Some(n) => {
            if n < segs.len() as u64 {
                Some(n as usize)
            } else {
                None
            }
        },
        Option::None => {
            if segs.len() > 999 {
                Some(999)
            } else {
                None
            }
        },
    };
    match idx_opt {
        Option::Some(idx) => {
            let raw = &segs[idx];
            match f {
                Filt::Plain => attempt_parse_string(raw.as_slice()),
                _ => {
                    let sv = Json::Str(vstd::slice::slice_to_vec(raw.as_slice()));
                    apply_filter(&sv, f)
                },
            }
        },
        Option::None => Json::Null,
    }
}

/// Value of a whole-string body reference.
fn body_ref_value_exec(body: &Option<Json>, sel: &[u8], f: Filt) -> (r: Json)
    ensures
        r@ == body_ref_value(opt_json_view(*body), sel@, f),
{
    match body {
        Option::None => Json::Null,
        Option::Some(b) => {
            match get_value_by_path(b, sel) {
                Option::None => Json::Null,
                Option::Some(v) => apply_filter(v, f),
            }
        },
    }
}

/// Value-mode rendering of a response body template: whole-placeholder
/// strings become typed values, other strings are substituted in string
/// mode, arrays and objects are walked recursively, and every other value
/// is returned unchanged.
pub fn resolve_template_value(
    res_body: &Json,
    path_segments: &Vec<Vec<u8>>,
    req_body: &Option<Json>,
) -> (r: Json)
    ensures
        r@ == resolve_value(res_body@, path_segments.deep_view(), opt_json_view(*req_body)),
    decreases *res_body,
{
    match res_body {
        Json::Str(s) => {
            match try_path_ph(s.as_slice()) {
                Option::Some((dg, f, l)) => {
                    proof {
                        lemma_parse_path_ph_digits(s@);
                    }
                    if l == s.len() {
                        path_ref_value_exec(path_segments, dg.as_slice(), f)
                    } else {
                        Json::Str(resolve_template(s.as_slice(), path_segments, req_body))
                    }
                },
                Option::None => {
                    match try_body_ph(s.as_slice()) {
                        Option::Some((sel, f, l)) => {
                            if l == s.len() {
                                body_ref_value_exec(req_body, sel.as_slice(), f)
                            } else {
                                Json::Str(resolve_template(s.as_slice(), path_segments, req_body))
                            }
                        },
                        Option::None => {
                            Json::Str(resolve_template(s.as_slice(), path_segments, req_body))
                        },
                    }
                },
            }
        },
        Json::Arr(a) => {
            let ghost segsv = path_segments.deep_view();
            let ghost bv = opt_json_view(*req_body);
            proof {
                lemma_arr_view(a@);
                lemma_resolve_list(crate::json::arr_view(a@), segsv, bv);
            }
            let mut out: Vec<Json> = Vec::new();
            let mut i: usize = 0;
            while i < a.len()
                invariant
                    i <= a@.len(),
                    out@.len() == i,
                    segsv == path_segments.deep_view(),
                    bv == opt_json_view(*req_body),
                    forall|k: int|
                        0 <= k < i ==> json_view(out@[k]) == resolve_value(
                            json_view(a@[k]),
                            segsv,
                            bv,
                        ),
                decreases a@.len() - i,
            {
                let c = resolve_template_value(&a[i], path_segments, req_body);
                out.push(c);
                i = i + 1;
            }
            proof {
                lemma_arr_view(out@);
                assert(crate::json::arr_view(out@) =~= resolve_list(
                    crate::json::arr_view(a@),
                    segsv,
                    bv,
                ));
            }
            Json::Arr(out)
        },
        Json::Obj(o) => {
            let ghost segsv = path_segments.deep_view();
            let ghost bv = opt_json_view(*req_body);
            proof {
                crate::json::lemma_obj_view(o@);
                lemma_resolve_obj(crate::json::obj_view(o@), segsv, bv);
            }
            let mut out: Vec<(Vec<u8>, Json)> = Vec::new();
            let mut i: usize = 0;
            while i < o.len()
                invariant
                    i <= o@.len(),
                    out@.len() == i,
                    segsv == path_segments.deep_view(),
                    bv == opt_json_view(*req_body),
                    forall|k: int|
                        0 <= k < i ==> out@[k].0@ == o@[k].0@ && json_view(out@[k].1)
                            == resolve_value(json_view(o@[k].1), segsv, bv),
                decreases o@.len() - i,
            {
                let (k, v) = &o[i];
                let ck = vstd::slice::slice_to_vec(k.as_slice());
                let cv = resolve_template_value(v, path_segments, req_body);
                out.push((ck, cv));
                i = i + 1;
            }
            proof {
                crate::json::lemma_obj_view(out@);
                assert(crate::json::obj_view(out@) =~= resolve_obj(
                    crate::json::obj_view(o@),
                    segsv,
                    bv,
                ));
            }
            Json::Obj(out)
        },
        Json::Null => Json::Null,
        Json::Bool(b) => Json::Bool(*b),
        Json::Int(i) => Json::Int(*i),
    }
}

/// No placeholder parses at any position of the text.
pub open spec fn text_placeholder_free(s: Seq<u8>) -> bool {
    forall|i: int|
        0 <= i <= s.len() ==> (#[trigger] parse_path_ph(s.skip(i))) is None && parse_body_ph(
            s.skip(i),
        ) is None
}

/// No string anywhere in the value contains a placeholder.
pub open spec fn no_placeholders(v: JsonV) -> bool
    decreases v,
{
    match v {
        JsonV::Str(s) => text_placeholder_free(s),
        JsonV::Arr(a) => no_placeholders_list(a),
        JsonV::Obj(o) => no_placeholders_obj(o),
        _ => true,
    }
}

pub open spec fn no_placeholders_list(a: Seq<JsonV>) -> bool
    decreases a,
{
    a.len() == 0 || (no_placeholders_list(a.drop_last()) && no_placeholders(a.last()))
}

pub open spec fn no_placeholders_obj(o: Seq<(Seq<u8>, JsonV)>) -> bool
    decreases o,
{
    o.len() == 0 || (no_placeholders_obj(o.drop_last()) && no_placeholders(o.last().1))
}

proof fn lemma_subst_path_identity(s: Seq<u8>, segs: Seq<Seq<u8>>)
    requires
        text_placeholder_free(s),
    ensures
        subst_path_str(s, segs) == s,
    decreases s.len(),
{
    if s.len() > 0 {
        assert(s.skip(0) =~= s);
        assert(parse_path_ph(s) is None);
        assert forall|i: int|
            0 <= i <= s.drop_first().len() implies (#[trigger] parse_path_ph(
            s.drop_first().skip(i),
        )) is None && parse_body_ph(s.drop_first().skip(i)) is None by {
            assert(s.drop_first().skip(i) =~= s.skip(i + 1));
        }
        lemma_subst_path_identity(s.drop_first(), segs);
        assert(subst_path_str(s, segs) =~= s);
    } else {
        assert(subst_path_str(s, segs) =~= s);
    }
}

proof fn lemma_subst_body_identity(s: Seq<u8>, body: Option<JsonV>)
    requires
        text_placeholder_free(s),
    ensures
        subst_body_str(s, body) == s,
    decreases s.len(),
{
    if s.len() > 0 {
        assert(s.skip(0) =~= s);
        assert(parse_path_ph(s.skip(0)) is None);
        assert(parse_body_ph(s) is None);
        assert forall|i: int|
            0 <= i <= s.drop_first().len() implies (#[trigger] parse_path_ph(
            s.drop_first().skip(i),
        )) is None && parse_body_ph(s.drop_first().skip(i)) is None by {
            assert(s.drop_first().skip(i) =~= s.skip(i + 1));
        }
        lemma_subst_body_identity(s.drop_first(), body);
        assert(subst_body_str(s, body) =~= s);
    } else {
        assert(subst_body_str(s, body) =~= s);
    }
}

/// Template idempotence: rendering a value that contains no placeholders
/// returns it unchanged, whatever the request's path segments and body.
pub proof fn lemma_template_idempotence(v: JsonV, segs: Seq<Seq<u8>>, body: Option<JsonV>)
    requires
        no_placeholders(v),
    ensures
        resolve_value(v, segs, body) == v,
    decreases v,
{
    match v {
        JsonV::Str(s) => {
            assert(s.skip(0) =~= s);
            assert(parse_path_ph(s.skip(0)) is None);
            assert(parse_path_ph(s) is None);
            assert(parse_body_ph(s) is None);
            lemma_subst_path_identity(s, segs);
            lemma_subst_body_identity(subst_path_str(s, segs), body);
        },
        JsonV::Arr(a) => {
            lemma_template_idempotence_list(a, segs, body);
            assert(resolve_list(a, segs, body) == a);
        },
        JsonV::Obj(o) => {
            lemma_template_idempotence_obj(o, segs, body);
            assert(resolve_obj(o, segs, body) == o);
        },
        _ => {},
    }
}

proof fn lemma_template_idempotence_list(a: Seq<JsonV>, segs: Seq<Seq<u8>>, body: Option<JsonV>)
    requires
        no_placeholders_list(a),
    ensures
        resolve_list(a, segs, body) == a,
    decreases a,
{
    if a.len() > 0 {
        lemma_template_idempotence_list(a.drop_last(), segs, body);
        lemma_template_idempotence(a.last(), segs, body);
        assert(resolve_list(a, segs, body) =~= a);
    } else {
        assert(resolve_list(a, segs, body) =~= a);
    }
}

proof fn lemma_template_idempotence_obj(
    o: Seq<(Seq<u8>, JsonV)>,
    segs: Seq<Seq<u8>>,
    body: Option<JsonV>,
)
    requires
        no_placeholders_obj(o),
    ensures
        resolve_obj(o, segs, body) == o,
    decreases o,
{
    if o.len() > 0 {
        lemma_template_idempotence_obj(o.drop_last(), segs, body);
        lemma_template_idempotence(o.last().1, segs, body);
        assert(resolve_obj(o, segs, body) =~= o);
    } else {
        assert(resolve_obj(o, segs, body) =~= o);
    }
}

} // verus!

