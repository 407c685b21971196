//! The JSON value model: condition bodies, request bodies and response
//! bodies are all values of this type. Strings are byte strings; numbers
//! are 64-bit integers. A verified serializer produces the wire text.

use vstd::prelude::*;

use crate::text::{bytes_eq, int_text, push_i64_text};

verus! {

/// Mathematical model of a JSON value.
#[verifier::ext_equal]
pub enum JsonV {
    Null,
    Bool(bool),
    Int(int),
    Str(Seq<u8>),
    Arr(Seq<JsonV>),
    Obj(Seq<(Seq<u8>, JsonV)>),
}

/// A JSON value. Object members keep their order; keys are not required
/// to be distinct, and lookups take the first match.
pub enum Json {
    Null,
    Bool(bool),
    Int(i64),
    Str(Vec<u8>),
    Arr(Vec<Json>),
    Obj(Vec<(Vec<u8>, Json)>),
}

pub open spec fn json_view(j: Json) -> JsonV
    decreases j,
{
    match j {
        Json::Null => JsonV::Null,
        Json::Bool(b) => JsonV::Bool(b),
        Json::Int(i) => JsonV::Int(i as int),
        Json::Str(s) => JsonV::Str(s@),
        Json::Arr(a) => JsonV::Arr(arr_view(a@)),
        Json::Obj(o) => JsonV::Obj(obj_view(o@)),
    }
}

pub open spec fn arr_view(a: Seq<Json>) -> Seq<JsonV>
    decreases a,
{
    if a.len() == 0 {
        Seq::empty()
    } else {
        arr_view(a.drop_last()).push(json_view(a.last()))
    }
}

pub open spec fn obj_view(o: Seq<(Vec<u8>, Json)>) -> Seq<(Seq<u8>, JsonV)>
    decreases o,
{
    if o.len() == 0 {
        Seq::empty()
    } else {
        obj_view(o.drop_last()).push((o.last().0@, json_view(o.last().1)))
    }
}

impl View for Json {
    type V = JsonV;

    open spec fn view(&self) -> JsonV {
        json_view(*self)
    }
}

pub proof fn lemma_arr_view(a: Seq<Json>)
    ensures
        arr_view(a).len() == a.len(),
        forall|i: int| 0 <= i < a.len() ==> arr_view(a)[i] == json_view(a[i]),
    decreases a,
{
    if a.len() > 0 {
        lemma_arr_view(a.drop_last());
    }
}

pub proof fn lemma_obj_view(o: Seq<(Vec<u8>, Json)>)
    ensures
        obj_view(o).len() == o.len(),
        forall|i: int|
            0 <= i < o.len() ==> obj_view(o)[i] == (o[i].0@, json_view(o[i].1)),
    decreases o,
{
    if o.len() > 0 {
        lemma_obj_view(o.drop_last());
    }
}

/// Structural (deep) equality of two JSON values.
pub fn json_eq(a: &Json, b: &Json) -> (r: bool)
    ensures
        r == (a@ == b@),
    decreases *a,
{
    match (a, b) {
        (Json::Null, Json::Null) => true,
        (Json::Bool(x), Json::Bool(y)) => *x == *y,
        (Json::Int(x), Json::Int(y)) => *x == *y,
        (Json::Str(x), Json::Str(y)) => bytes_eq(x.as_slice(), y.as_slice()),
        (Json::Arr(x), Json::Arr(y)) => {
            proof {
                lemma_arr_view(x@);
                lemma_arr_view(y@);
            }
            if x.len() != y.len() {
                return false;
            }
            let mut i: usize = 0;
            while i < x.len()
                invariant
                    i <= x@.len(),
                    x@.len() == y@.len(),
                    forall|j: int| 0 <= j < i ==> json_view(x@[j]) == json_view(y@[j]),
                decreases x@.len() - i,
            {
                if !json_eq(&x[i], &y[i]) {
                    assert(arr_view(x@)[i as int] != arr_view(y@)[i as int]);
                    return false;
                }
                i = i + 1;
            }
            proof {
                assert(arr_view(x@) =~= arr_view(y@));
            }
            true
        },
        (Json::Obj(x), Json::Obj(y)) => {
            proof {
                lemma_obj_view(x@);
                lemma_obj_view(y@);
            }
            if x.len() != y.len() {
                return false;
            }
            let mut i: usize = 0;
            while i < x.len()
                invariant
                    i <= x@.len(),
                    x@.len() == y@.len(),
                    forall|j: int|
                        0 <= j < i ==> x@[j].0@ == y@[j].0@ && json_view(x@[j].1) == json_view(
                            y@[j].1,
                        ),
                decreases x@.len() - i,
            {
                let (xk, xv) = &x[i];
                let (yk, yv) = &y[i];
                if !bytes_eq(xk.as_slice(), yk.as_slice()) {
                    assert(obj_view(x@)[i as int] != obj_view(y@)[i as int]);
                    return false;
                }
                if !json_eq(xv, yv) {
                    assert(obj_view(x@)[i as int] != obj_view(y@)[i as int]);
                    return false;
                }
                i = i + 1;
            }
            proof {
                assert(obj_view(x@) =~= obj_view(y@));
            }
            true
        },
        _ => {
            false
        },
    }
}

/// A deep copy.
pub fn json_clone(j: &Json) -> (r: Json)
    ensures
        r@ == j@,
    decreases *j,
{
    match j {
        Json::Null => Json::Null,
        Json::Bool(b) => Json::Bool(*b),
        Json::Int(i) => Json::Int(*i),
        Json::Str(s) => Json::Str(vstd::slice::slice_to_vec(s.as_slice())),
        Json::Arr(a) => {
            let mut out: Vec<Json> = Vec::new();
            let mut i: usize = 0;
            proof {
                lemma_arr_view(a@);
            }
            while i < a.len()
                invariant
                    i <= a@.len(),
                    out@.len() == i,
                    forall|k: int| 0 <= k < i ==> json_view(out@[k]) == json_view(a@[k]),
                decreases a@.len() - i,
            {
                let c = json_clone(&a[i]);
                out.push(c);
                i = i + 1;
            }
            proof {
                lemma_arr_view(out@);
                assert(arr_view(out@) =~= arr_view(a@));
            }
            Json::Arr(out)
        },
        Json::Obj(o) => {
            let mut out: Vec<(Vec<u8>, Json)> = Vec::new();
            let mut i: usize = 0;
            proof {
                lemma_obj_view(o@);
            }
            while i < o.len()
                invariant
                    i <= o@.len(),
                    out@.len() == i,
                    forall|k: int|
                        0 <= k < i ==> out@[k].0@ == o@[k].0@ && json_view(out@[k].1) == json_view(
                            o@[k].1,
                        ),
                decreases o@.len() - i,
            {
                let (k, v) = &o[i];
                let ck = vstd::slice::slice_to_vec(k.as_slice());
                let cv = json_clone(v);
                out.push((ck, cv));
                i = i + 1;
            }
            proof {
                lemma_obj_view(out@);
                assert(obj_view(out@) =~= obj_view(o@));
            }
            Json::Obj(out)
        },
    }
}

/// First member of `o` whose key equals `k`, if any.
pub open spec fn obj_get(o: Seq<(Seq<u8>, JsonV)>, k: Seq<u8>) -> Option<JsonV>
    decreases o.len(),
{
    if o.len() == 0 {
        Option::None
    } else if o[0].0 == k {
        Option::Some(o[0].1)
    } else {
        obj_get(o.drop_first(), k)
    }
}

/// Looks a key up in an object's members, first match wins.
pub fn obj_lookup<'a>(o: &'a Vec<(Vec<u8>, Json)>, k: &[u8]) -> (r: Option<&'a Json>)
    ensures
        match r {
            Option::Some(v) => obj_get(obj_view(o@), k@) == Option::Some(v@),
            Option::None => obj_get(obj_view(o@), k@) is None,
        },
{
    proof {
        lemma_obj_view(o@);
        assert(obj_view(o@).skip(0) =~= obj_view(o@));
    }
    let mut i: usize = 0;
    while i < o.len()
        invariant
            i <= o@.len(),
            obj_get(obj_view(o@), k@) == obj_get(obj_view(o@).skip(i as int), k@),
        decreases o@.len() - i,
    {
        proof {
            assert(obj_view(o@).skip(i as int)[0] == obj_view(o@)[i as int]);
            assert(obj_view(o@).skip(i as int).drop_first() =~= obj_view(o@).skip(i + 1));
        }
        if bytes_eq(o[i].0.as_slice(), k) {
            return Some(&o[i].1);
        }
        i = i + 1;
    }
    proof {
        assert(obj_view(o@).skip(i as int) =~= Seq::<(Seq<u8>, JsonV)>::empty());
    }
    None
}

/// The escape text of one byte inside a JSON string, matching the JSON
/// wire format: quote and backslash escaped, control bytes as shorthand
/// escapes or `\u00XX` with lowercase hex digits.
pub open spec fn esc_byte(b: u8) -> Seq<u8> {
    if b == 34 {
        seq![92u8, 34u8]
    } else if b == 92 {
        seq![92u8, 92u8]
    } else if b == 8 {
        seq![92u8, 98u8]
    } else if b == 9 {
        seq![92u8, 116u8]
    } else if b == 10 {
        seq![92u8, 110u8]
    } else if b == 12 {
        seq![92u8, 102u8]
    } else if b == 13 {
        seq![92u8, 114u8]
    } else if b < 32 {
        seq![92u8, 117u8, 48u8, 48u8, hex_digit((b / 16) as u8), hex_digit((b % 16) as u8)]
    } else {
        seq![b]
    }
}

pub open spec fn hex_digit(n: u8) -> u8 {
    if n < 10 {
        (48 + n) as u8
    } else {
        (87 + n) as u8
    }
}

pub open spec fn esc_seq(s: Seq<u8>) -> Seq<u8>
    decreases s.len(),
{
    if s.len() == 0 {
        Seq::empty()
    } else {
        esc_seq(s.drop_last()) + esc_byte(s.last())
    }
}

/// The serialized form of a JSON string: quoted and escaped.
pub open spec fn str_text(s: Seq<u8>) -> Seq<u8> {
    seq![34u8] + esc_seq(s) + seq![34u8]
}

/// The text `null`.
pub open spec fn null_text() -> Seq<u8> {
    seq![110u8, 117u8, 108u8, 108u8]
}

/// The text `true`.
pub open spec fn true_text() -> Seq<u8> {
    seq![116u8, 114u8, 117u8, 101u8]
}

/// The text `false`.
pub open spec fn false_text() -> Seq<u8> {
    seq![102u8, 97u8, 108u8, 115u8, 101u8]
}

/// The text `null` as a vector.
pub fn lit_null() -> (r: Vec<u8>)
    ensures
        r@ == null_text(),
{
    let mut v: Vec<u8> = Vec::new();
    v.push(110);
    v.push(117);
    v.push(108);
    v.push(108);
    proof {
        assert(v@ =~= null_text());
    }
    v
}

/// The text `true` as a vector.
pub fn lit_true() -> (r: Vec<u8>)
    ensures
        r@ == true_text(),
{
    let mut v: Vec<u8> = Vec::new();
    v.push(116);
    v.push(114);
    v.push(117);
    v.push(101);
    proof {
        assert(v@ =~= true_text());
    }
    v
}

/// The text `false` as a vector.
pub fn lit_false() -> (r: Vec<u8>)
    ensures
        r@ == false_text(),
{
    let mut v: Vec<u8> = Vec::new();
    v.push(102);
    v.push(97);
    v.push(108);
    v.push(115);
    v.push(101);
    proof {
        assert(v@ =~= false_text());
    }
    v
}

/// Compact serialized text of a JSON value.
pub open spec fn json_text(v: JsonV) -> Seq<u8>
    decreases v,
{
    match v {
        JsonV::Null => null_text(),
        JsonV::Bool(b) => if b {
            true_text()
        } else {
            false_text()
        },
        JsonV::Int(i) => int_text(i),
        JsonV::Str(s) => str_text(s),
        JsonV::Arr(a) => seq![91u8] + arr_text(a) + seq![93u8],
        JsonV::Obj(o) => seq![123u8] + obj_text(o) + seq![125u8],
    }
}

pub open spec fn arr_text(a: Seq<JsonV>) -> Seq<u8>
    decreases a,
{
    if a.len() == 0 {
        Seq::empty()
    } else if a.len() == 1 {
        json_text(a[0])
    } else {
        arr_text(a.drop_last()) + seq![44u8] + json_text(a.last())
    }
}

pub open spec fn obj_text(o: Seq<(Seq<u8>, JsonV)>) -> Seq<u8>
    decreases o,
{
    if o.len() == 0 {
        Seq::empty()
    } else if o.len() == 1 {
        str_text(o[0].0) + seq![58u8] + json_text(o[0].1)
    } else {
        obj_text(o.drop_last()) + seq![44u8] + str_text(o.last().0) + seq![58u8] + json_text(
            o.last().1,
        )
    }
}

fn hex_digit_exec(n: u8) -> (r: u8)
    requires
        n < 16,
    ensures
        r == hex_digit(n),
{
    if n < 10 {
        48 + n
    } else {
        87 + n
    }
}

/// Appends the escaped form of the bytes of a JSON string (no quotes).
fn push_escaped(out: &mut Vec<u8>, s: &[u8])
    ensures
        final(out)@ == old(out)@ + esc_seq(s@),
{
    let mut i: usize = 0;
    proof {
        assert(s@.take(0) =~= Seq::<u8>::empty());
        assert(out@ + esc_seq(s@.take(0)) =~= out@);
    }
    while i < s.len()
        invariant
            i <= s@.len(),
            out@ == old(out)@ + esc_seq(s@.take(i as int)),
        decreases s@.len() - i,
    {
        let b = s[i];
        if b == 34 {
            out.push(92);
            out.push(34);
        } else if b == 92 {
            out.push(92);
            out.push(92);
        } else if b == 8 {
            out.push(92);
            out.push(98);
        } else if b == 9 {
            out.push(92);
            out.push(116);
        } else if b == 10 {
            out.push(92);
            out.push(110);
        } else if b == 12 {
            out.push(92);
            out.push(102);
        } else if b == 13 {
            out.push(92);
            out.push(114);
        } else if b < 32 {
            out.push(92);
            out.push(117);
            out.push(48);
            out.push(48);
            out.push(hex_digit_exec(b / 16));
            out.push(hex_digit_exec(b % 16));
        } else {
            out.push(b);
        }
        proof {
            assert(s@.take(i + 1).drop_last() =~= s@.take(i as int));
            assert(s@.take(i + 1).last() == s@[i as int]);
            assert(out@ =~= old(out)@ + esc_seq(s@.take(i + 1)));
        }
        i = i + 1;
    }
    proof {
        assert(s@.take(i as int) =~= s@);
    }
}

/// Appends the quoted, escaped form of a JSON string.
fn push_str_text(out: &mut Vec<u8>, s: &[u8])
    ensures
        final(out)@ == old(out)@ + str_text(s@),
{
    out.push(34);
    push_escaped(out, s);
    out.push(34);
    proof {
        assert(out@ =~= old(out)@ + str_text(s@));
    }
}

/// Appends the compact serialized text of `j`.
pub fn push_json_text(out: &mut Vec<u8>, j: &Json)
    ensures
        final(out)@ == old(out)@ + json_text(j@),
    decreases *j,
{
    match j {
        Json::Null => {
            out.push(110);
            out.push(117);
            out.push(108);
            out.push(108);
            proof {
                assert(out@ =~= old(out)@ + json_text(j@));
            }
        },
        Json::Bool(b) => {
            if *b {
                out.push(116);
                out.push(114);
                out.push(117);
                out.push(101);
            } else {
                out.push(102);
                out.push(97);
                out.push(108);
                out.push(115);
                out.push(101);
            }
            proof {
                assert(out@ =~= old(out)@ + json_text(j@));
            }
        },
        Json::Int(i) => {
            push_i64_text(out, *i);
        },
        Json::Str(s) => {
            push_str_text(out, s.as_slice());
        },
        Json::Arr(a) => {
            proof {
                lemma_arr_view(a@);
            }
            let ghost va = arr_view(a@);
            out.push(91);
            let mut i: usize = 0;
            proof {
                assert(va.take(0) =~= Seq::<JsonV>::empty());
                assert(out@ =~= old(out)@ + seq![91u8] + arr_text(va.take(0)));
            }
            while i < a.len()
                invariant
                    i <= a@.len(),
                    va == arr_view(a@),
                    va.len() == a@.len(),
                    forall|k: int| 0 <= k < a@.len() ==> va[k] == json_view(a@[k]),
                    out@ == old(out)@ + seq![91u8] + arr_text(va.take(i as int)),
                decreases a@.len() - i,
            {
                if i > 0 {
                    out.push(44);
                }
                push_json_text(out, &a[i]);
                proof {
                    assert(va.take(i + 1).drop_last() =~= va.take(i as int));
                    assert(va.take(i + 1).last() == va[i as int]);
                    if i == 0 {
                        assert(va.take(1).len() == 1);
                        assert(va.take(1)[0] == va[0]);
                    }
                    assert(out@ =~= old(out)@ + seq![91u8] + arr_text(va.take(i + 1)));
                }
                i = i + 1;
            }
            out.push(93);
            proof {
                assert(va.take(i as int) =~= va);
                assert(out@ =~= old(out)@ + json_text(j@));
            }
        },
        Json::Obj(o) => {
            proof {
                lemma_obj_view(o@);
            }
            let ghost vo = obj_view(o@);
            out.push(123);
            let mut i: usize = 0;
            proof {
                assert(vo.take(0) =~= Seq::<(Seq<u8>, JsonV)>::empty());
                assert(out@ =~= old(out)@ + seq![123u8] + obj_text(vo.take(0)));
            }
            while i < o.len()
                invariant
                    i <= o@.len(),
                    vo == obj_view(o@),
                    vo.len() == o@.len(),
                    forall|k: int| 0 <= k < o@.len() ==> vo[k] == (o@[k].0@, json_view(o@[k].1)),
                    out@ == old(out)@ + seq![123u8] + obj_text(vo.take(i as int)),
                decreases o@.len() - i,
            {
                if i > 0 {
                    out.push(44);
                }
                let (k, v) = &o[i];
                push_str_text(out, k.as_slice());
                out.push(58);
                push_json_text(out, v);
                proof {
                    assert(vo.take(i + 1).drop_last() =~= vo.take(i as int));
                    assert(vo.take(i + 1).last() == vo[i as int]);
                    if i == 0 {
                        assert(vo.take(1).len() == 1);
                        assert(vo.take(1)[0] == vo[0]);
                    }
                    assert(out@ =~= old(out)@ + seq![123u8] + obj_text(vo.take(i + 1)));
                }
                i = i + 1;
            }
            out.push(125);
            proof {
                assert(vo.take(i as int) =~= vo);
                assert(out@ =~= old(out)@ + json_text(j@));
            }
        },
    }
}

/// Compact serialized text of a JSON value.
pub fn json_to_text(j: &Json) -> (r: Vec<u8>)
    ensures
        r@ == json_text(j@),
{
    let mut out: Vec<u8> = Vec::new();
    push_json_text(&mut out, j);
    proof {
        assert(out@ =~= json_text(j@));
    }
    out
}

/// `s` with every double-quote byte removed.
pub open spec fn remove_quotes(s: Seq<u8>) -> Seq<u8>
    decreases s.len(),
{
    if s.len() == 0 {
        Seq::empty()
    } else if s.last() == 34 {
        remove_quotes(s.drop_last())
    } else {
        remove_quotes(s.drop_last()).push(s.last())
    }
}

/// Removes every double-quote byte.
pub fn remove_quote_bytes(s: &[u8]) -> (r: Vec<u8>)
    ensures
        r@ == remove_quotes(s@),
{
    let mut out: Vec<u8> = Vec::new();
    let mut i: usize = 0;
    proof {
        assert(s@.take(0) =~= Seq::<u8>::empty());
        assert(out@ =~= remove_quotes(s@.take(0)));
    }
    while i < s.len()
        invariant
            i <= s@.len(),
            out@ == remove_quotes(s@.take(i as int)),
        decreases s@.len() - i,
    {
        proof {
            assert(s@.take(i + 1).drop_last() =~= s@.take(i as int));
            assert(s@.take(i + 1).last() == s@[i as int]);
        }
        if s[i] != 34 {
            out.push(s[i]);
        }
        i = i + 1;
    }
    proof {
        assert(s@.take(i as int) =~= s@);
    }
    out
}

} // verus!
