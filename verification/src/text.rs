//! Byte-string helpers: case folding, searching, splitting, and decimal
//! formatting and parsing. All text in this library is handled as bytes.

use vstd::prelude::*;

verus! {

/// Replaces a lowercase ASCII letter with its uppercase counterpart.
pub open spec fn ascii_upper(b: u8) -> u8 {
    if 97 <= b <= 122 {
        (b - 32) as u8
    } else {
        b
    }
}

/// Bytewise ASCII uppercasing of a byte string.
pub open spec fn upper_seq(s: Seq<u8>) -> Seq<u8> {
    s.map_values(|b: u8| ascii_upper(b))
}

/// Uppercases one byte, ASCII-only.
pub fn upper_byte(b: u8) -> (r: u8)
    ensures
        r == ascii_upper(b),
{
    if 97 <= b && b <= 122 {
        b - 32
    } else {
        b
    }
}

/// Exact equality of two byte strings.
pub fn bytes_eq(a: &[u8], b: &[u8]) -> (r: bool)
    ensures
        r == (a@ == b@),
{
    if a.len() != b.len() {
        return false;
    }
    let mut i: usize = 0;
    while i < a.len()
        invariant
            i <= a@.len(),
            a@.len() == b@.len(),
            forall|j: int| 0 <= j < i ==> a@[j] == b@[j],
        decreases a@.len() - i,
    {
        if a[i] != b[i] {
            return false;
        }
        i = i + 1;
    }
    proof {
        assert(a@ =~= b@);
    }
    true
}

/// ASCII-case-insensitive equality of two byte strings.
pub fn eq_ignore_case(a: &[u8], b: &[u8]) -> (r: bool)
    ensures
        r == (upper_seq(a@) == upper_seq(b@)),
{
    proof {
        assert(upper_seq(a@).len() == a@.len());
        assert(upper_seq(b@).len() == b@.len());
    }
    if a.len() != b.len() {
        return false;
    }
    let mut i: usize = 0;
    while i < a.len()
        invariant
            i <= a@.len(),
            a@.len() == b@.len(),
            forall|j: int| 0 <= j < i ==> ascii_upper(a@[j]) == ascii_upper(b@[j]),
        decreases a@.len() - i,
    {
        if upper_byte(a[i]) != upper_byte(b[i]) {
            assert(upper_seq(a@)[i as int] != upper_seq(b@)[i as int]);
            return false;
        }
        i = i + 1;
    }
    proof {
        assert(upper_seq(a@) =~= upper_seq(b@));
    }
    true
}

/// The needle `n` occurs in `h` starting at position `i`.
pub open spec fn match_at(h: Seq<u8>, n: Seq<u8>, i: int) -> bool {
    0 <= i && i + n.len() <= h.len() && h.subrange(i, i + n.len() as int) == n
}

/// The needle `n` occurs somewhere in `h`.
pub open spec fn contains_seq(h: Seq<u8>, n: Seq<u8>) -> bool {
    exists|i: int| match_at(h, n, i)
}

/// Substring search: does `n` occur anywhere in `h`?
pub fn contains_bytes(h: &[u8], n: &[u8]) -> (r: bool)
    ensures
        r == contains_seq(h@, n@),
{
    if n.len() > h.len() {
        return false;
    }
    if n.len() == 0 {
        proof {
            assert(h@.subrange(0, 0) =~= n@);
            assert(match_at(h@, n@, 0));
        }
        return true;
    }
    let end = h.len() - n.len() + 1;
    let mut i: usize = 0;
    while i < end
        invariant
            i <= end,
            end == h@.len() - n@.len() + 1,
            n@.len() >= 1,
            forall|k: int| 0 <= k < i ==> !match_at(h@, n@, k),
        decreases end - i,
    {
        let w = vstd::slice::slice_subrange(h, i, i + n.len());
        if bytes_eq(w, n) {
            assert(match_at(h@, n@, i as int));
            return true;
        }
        i = i + 1;
    }
    false
}

/// Index of the first occurrence of `c` in `s`, or `s.len()` if absent.
pub open spec fn idx_of(s: Seq<u8>, c: u8) -> int
    decreases s.len(),
{
    if s.len() == 0 {
        0
    } else if s[0] == c {
        0
    } else {
        1 + idx_of(s.drop_first(), c)
    }
}

pub proof fn lemma_idx_of(s: Seq<u8>, c: u8)
    ensures
        0 <= idx_of(s, c) <= s.len(),
        idx_of(s, c) < s.len() ==> s[idx_of(s, c)] == c,
        forall|j: int| 0 <= j < idx_of(s, c) ==> s[j] != c,
    decreases s.len(),
{
    if s.len() > 0 && s[0] != c {
        lemma_idx_of(s.drop_first(), c);
        assert forall|j: int| 0 <= j < idx_of(s, c) implies s[j] != c by {
            if j > 0 {
                assert(s.drop_first()[j - 1] == s[j]);
            }
        }
    }
}

/// First occurrence of `c` in `s`, or `s.len()` if absent.
pub fn find_byte(s: &[u8], c: u8) -> (r: usize)
    ensures
        r == idx_of(s@, c),
{
    proof {
        lemma_idx_of(s@, c);
    }
    let mut i: usize = 0;
    while i < s.len()
        invariant
            i <= s@.len(),
            forall|j: int| 0 <= j < i ==> s@[j] != c,
        decreases s@.len() - i,
    {
        if s[i] == c {
            return i;
        }
        i = i + 1;
    }
    i
}

/// Appends a byte slice to a byte vector.
pub fn append_bytes(out: &mut Vec<u8>, s: &[u8])
    ensures
        final(out)@ == old(out)@ + s@,
{
    out.extend_from_slice(s);
    proof {
        assert(out@ =~= old(out)@ + s@);
    }
}

/// The non-empty `c`-separated parts of `p`, in order.
pub open spec fn split_nonempty(p: Seq<u8>, c: u8) -> Seq<Seq<u8>>
    decreases p.len(),
    via split_nonempty_dec
{
    if p.len() == 0 {
        Seq::empty()
    } else if p[0] == c {
        split_nonempty(p.drop_first(), c)
    } else {
        seq![p.take(idx_of(p, c))] + split_nonempty(p.skip(idx_of(p, c)), c)
    }
}

#[via_fn]
proof fn split_nonempty_dec(p: Seq<u8>, c: u8) {
    lemma_idx_of(p, c);
}

/// Splits `p` at `c` bytes, dropping empty parts.
pub fn split_nonempty_bytes(p: &[u8], c: u8) -> (r: Vec<Vec<u8>>)
    ensures
        r.deep_view() == split_nonempty(p@, c),
{
    let mut r: Vec<Vec<u8>> = Vec::new();
    let mut i: usize = 0;
    proof {
        assert(r.deep_view() =~= Seq::<Seq<u8>>::empty());
        assert(p@.skip(0) =~= p@);
        assert(r.deep_view() + split_nonempty(p@, c) =~= split_nonempty(p@, c));
    }
    while i < p.len()
        invariant
            i <= p@.len(),
            split_nonempty(p@, c) == r.deep_view() + split_nonempty(p@.skip(i as int), c),
        decreases p@.len() - i,
    {
        if p[i] == c {
            proof {
                assert(p@.skip(i as int).drop_first() =~= p@.skip(i + 1));
            }
            i = i + 1;
        } else {
            let tail = vstd::slice::slice_subrange(p, i, p.len());
            let k = find_byte(tail, c);
            proof {
                lemma_idx_of(tail@, c);
            }
            let seg = vstd::slice::slice_to_vec(vstd::slice::slice_subrange(tail, 0, k));
            let ghost r0 = r.deep_view();
            let ghost rv0 = r@;
            proof {
                assert(tail@.take(idx_of(tail@, c)) =~= seg@);
                assert(tail@.skip(idx_of(tail@, c)) =~= p@.skip(i + k));
                assert(r0.push(seg@) + split_nonempty(p@.skip(i + k), c) =~= r0 + split_nonempty(
                    p@.skip(i as int),
                    c,
                ));
            }
            r.push(seg);
            proof {
                assert(seg.deep_view() =~= seg@);
                assert forall|j: int| 0 <= j < r.deep_view().len() implies r.deep_view()[j]
                    == r0.push(seg@)[j] by {
                    if j < r0.len() {
                        assert(r@[j] == rv0[j]);
                    }
                }
                assert(r.deep_view() =~= r0.push(seg@));
            }
            i = i + k;
        }
    }
    proof {
        assert(p@.skip(i as int) =~= Seq::<u8>::empty());
        assert(r.deep_view() + split_nonempty(p@.skip(i as int), c) =~= r.deep_view());
    }
    r
}

/// Decimal digit string of a non-negative integer, most significant first.
pub open spec fn dec_digits(n: nat) -> Seq<u8>
    decreases n,
{
    if n < 10 {
        seq![(48 + n) as u8]
    } else {
        dec_digits(n / 10) + seq![(48 + n % 10) as u8]
    }
}

/// Decimal text of an integer: a leading `-` for negative values.
pub open spec fn int_text(i: int) -> Seq<u8> {
    if i < 0 {
        seq![45u8] + dec_digits((-i) as nat)
    } else {
        dec_digits(i as nat)
    }
}

/// Appends the decimal text of `n`.
pub fn push_u64_text(out: &mut Vec<u8>, n: u64)
    ensures
        final(out)@ == old(out)@ + dec_digits(n as nat),
    decreases n,
{
    if n < 10 {
        out.push(48 + n as u8);
        proof {
            assert(out@ =~= old(out)@ + dec_digits(n as nat));
        }
    } else {
        push_u64_text(out, n / 10);
        out.push(48 + (n % 10) as u8);
        proof {
            assert(out@ =~= old(out)@ + dec_digits(n as nat));
        }
    }
}

/// Appends the decimal text of `i`, with a sign for negative values.
pub fn push_i64_text(out: &mut Vec<u8>, i: i64)
    ensures
        final(out)@ == old(out)@ + int_text(i as int),
{
    if i >= 0 {
        push_u64_text(out, i as u64);
    } else {
        out.push(45);
        let mag: u64 = ((-(i + 1)) as u64) + 1;
        assert(mag == -(i as int));
        push_u64_text(out, mag);
        proof {
            assert(out@ =~= old(out)@ + int_text(i as int));
        }
    }
}

/// All bytes are ASCII decimal digits.
pub open spec fn all_digits(s: Seq<u8>) -> bool {
    forall|i: int| 0 <= i < s.len() ==> 48 <= #[trigger] s[i] <= 57
}

/// Numeric value of a digit string (0 when empty).
pub open spec fn digits_val(s: Seq<u8>) -> int
    decreases s.len(),
{
    if s.len() == 0 {
        0
    } else {
        digits_val(s.drop_last()) * 10 + (s.last() - 48)
    }
}

pub proof fn lemma_digits_val_mono(s: Seq<u8>, i: int)
    requires
        all_digits(s),
        0 <= i <= s.len(),
    ensures
        0 <= digits_val(s.take(i)) <= digits_val(s),
    decreases s.len() - i,
{
    if i == s.len() {
        assert(s.take(i) =~= s);
        lemma_digits_val_nonneg(s);
    } else {
        lemma_digits_val_mono(s, i + 1);
        lemma_digits_val_nonneg(s.take(i));
        assert(s.take(i + 1).drop_last() =~= s.take(i));
        assert(digits_val(s.take(i + 1)) == digits_val(s.take(i)) * 10 + (s[i] - 48));
    }
}

pub proof fn lemma_digits_val_nonneg(s: Seq<u8>)
    requires
        all_digits(s),
    ensures
        digits_val(s) >= 0,
    decreases s.len(),
{
    if s.len() > 0 {
        assert(all_digits(s.drop_last()));
        lemma_digits_val_nonneg(s.drop_last());
    }
}

/// Parses an unsigned decimal digit string. Returns the value exactly when
/// the text is one or more digits whose value fits in `u64`.
pub fn parse_u64(s: &[u8]) -> (r: Option<u64>)
    ensures
        r is Some <==> s@.len() >= 1 && all_digits(s@) && digits_val(s@) <= u64::MAX,
        r is Some ==> r->0 == digits_val(s@),
{
    if s.len() == 0 {
        return None;
    }
    let mut acc: u64 = 0;
    let mut i: usize = 0;
    proof {
        assert(s@.take(0) =~= Seq::<u8>::empty());
    }
    while i < s.len()
        invariant
            i <= s@.len(),
            s@.len() >= 1,
            all_digits(s@.take(i as int)),
            acc == digits_val(s@.take(i as int)),
        decreases s@.len() - i,
    {
        let b = s[i];
        if b < 48 || b > 57 {
            assert(!all_digits(s@));
            return None;
        }
        let d = (b - 48) as u64;
        proof {
            assert(s@.take(i + 1).drop_last() =~= s@.take(i as int));
            assert(all_digits(s@.take(i + 1)));
        }
        if acc > (u64::MAX - d) / 10 {
            assert(digits_val(s@.take(i + 1)) > u64::MAX);
            proof {
                if all_digits(s@) && digits_val(s@) <= u64::MAX {
                    lemma_digits_val_mono(s@, i + 1);
                }
            }
            return None;
        }
        acc = acc * 10 + d;
        i = i + 1;
    }
    proof {
        assert(s@.take(i as int) =~= s@);
    }
    Some(acc)
}

/// Well-formed signed decimal text: optional `+` or `-`, then digits.
pub open spec fn int_text_wf(s: Seq<u8>) -> bool {
    if s.len() >= 1 && (s[0] == 43 || s[0] == 45) {
        s.len() >= 2 && all_digits(s.drop_first())
    } else {
        s.len() >= 1 && all_digits(s)
    }
}

/// Value of well-formed signed decimal text.
pub open spec fn int_text_val(s: Seq<u8>) -> int {
    if s.len() >= 1 && s[0] == 45 {
        -digits_val(s.drop_first())
    } else if s.len() >= 1 && s[0] == 43 {
        digits_val(s.drop_first())
    } else {
        digits_val(s)
    }
}

/// Parses signed decimal text as a 64-bit integer, as `str::parse::<i64>`
/// accepts it: an optional sign, then digits, the value within range.
pub fn parse_i64(s: &[u8]) -> (r: Option<i64>)
    ensures
        r is Some <==> int_text_wf(s@) && i64::MIN <= int_text_val(s@) <= i64::MAX,
        r is Some ==> r->0 == int_text_val(s@),
{
    if s.len() == 0 {
        return None;
    }
    let (neg, digits) = if s[0] == 45 {
        (true, vstd::slice::slice_subrange(s, 1, s.len()))
    } else if s[0] == 43 {
        (false, vstd::slice::slice_subrange(s, 1, s.len()))
    } else {
        (false, vstd::slice::slice_subrange(s, 0, s.len()))
    };
    proof {
        if s@[0] == 45 || s@[0] == 43 {
            assert(digits@ =~= s@.drop_first());
        } else {
            assert(digits@ =~= s@);
        }
    }
    match parse_u64(digits) {
        Option::None => {
            proof {
                if int_text_wf(s@) {
                    lemma_digits_val_nonneg(digits@);
                }
            }
            None
        },
        Option::Some(v) => {
            if neg {
                if v <= i64::MAX as u64 {
                    Some(-(v as i64))
                } else if v == (i64::MAX as u64) + 1 {
                    Some(i64::MIN)
                } else {
                    None
                }
            } else {
                if v <= i64::MAX as u64 {
                    Some(v as i64)
                } else {
                    None
                }
            }
        },
    }
}

/// `s` with every trailing `c` byte removed.
pub open spec fn trim_trailing(s: Seq<u8>, c: u8) -> Seq<u8>
    decreases s.len(),
{
    if s.len() > 0 && s.last() == c {
        trim_trailing(s.drop_last(), c)
    } else {
        s
    }
}

/// Removes every trailing `c` byte.
pub fn trim_trailing_bytes(s: &[u8], c: u8) -> (r: Vec<u8>)
    ensures
        r@ == trim_trailing(s@, c),
{
    let mut j: usize = s.len();
    proof {
        assert(s@.take(j as int) =~= s@);
    }
    while j > 0 && s[j - 1] == c
        invariant
            j <= s@.len(),
            trim_trailing(s@, c) == trim_trailing(s@.take(j as int), c),
        decreases j,
    {
        proof {
            assert(s@.take(j as int).drop_last() =~= s@.take(j - 1));
        }
        j = j - 1;
    }
    let r = vstd::slice::slice_to_vec(vstd::slice::slice_subrange(s, 0, j));
    proof {
        assert(r@ =~= s@.take(j as int));
    }
    r
}

} // verus!
