//! The compute half of streaming ingestion: turning the raw fields of
//! one record into an `(src, dst, t)` edge event. The surrounding file
//! driver only reads records and hands their fields here.

use vstd::prelude::*;

verus! {

/// An ASCII decimal digit.
pub open spec fn is_digit(b: u8) -> bool {
    48 <= b <= 57
}

/// The value of an ASCII decimal numeral (most significant digit first).
pub open spec fn dec_val(s: Seq<u8>) -> int
    decreases s.len(),
{
    if s.len() == 0 {
        0
    } else {
        dec_val(s.drop_last()) * 10 + (s.last() - 48)
    }
}

/// All bytes of the numeral are digits.
pub open spec fn all_digits(s: Seq<u8>) -> bool {
    forall|i: int| 0 <= i < s.len() ==> is_digit(#[trigger] s[i])
}

/// A digit numeral's value never decreases as digits are appended.
proof fn lemma_dec_val_prefix(s: Seq<u8>, i: int)
    requires
        all_digits(s),
        0 <= i <= s.len(),
    ensures
        0 <= dec_val(s.subrange(0, i)) <= dec_val(s),
    decreases s.len() - i,
{
    if i == s.len() {
        assert(s.subrange(0, i) =~= s);
        lemma_dec_val_nonneg(s);
    } else {
        lemma_dec_val_prefix(s, i + 1);
        let p = s.subrange(0, i + 1);
        assert(p.drop_last() =~= s.subrange(0, i));
        assert(p.last() == s[i]);
        lemma_dec_val_nonneg(s.subrange(0, i));
        assert(dec_val(s.subrange(0, i)) <= dec_val(s.subrange(0, i)) * 10 + (s[i] - 48)) by (nonlinear_arith)
            requires
                dec_val(s.subrange(0, i)) >= 0,
                is_digit(s[i]),
        ;
    }
}

/// A digit numeral's value is not negative.
proof fn lemma_dec_val_nonneg(s: Seq<u8>)
    requires
        all_digits(s),
    ensures
        dec_val(s) >= 0,
    decreases s.len(),
{
    if s.len() > 0 {
        assert(is_digit(s[s.len() - 1]));
        assert(forall|i: int| 0 <= i < s.len() - 1 ==> is_digit(#[trigger] s.drop_last()[i]));
        lemma_dec_val_nonneg(s.drop_last());
    }
}

/// The numeral after an optional leading plus sign.
pub open spec fn numeral_body(s: Seq<u8>) -> Seq<u8> {
    if s.len() > 0 && s[0] == 43 {
        s.subrange(1, s.len() as int)
    } else {
        s
    }
}

/// Whether a byte string is an in-range unsigned decimal numeral: an
/// optional plus sign, then one or more digits whose value fits `u64`.
pub open spec fn is_u64_numeral(s: Seq<u8>) -> bool {
    &&& numeral_body(s).len() > 0
    &&& all_digits(numeral_body(s))
    &&& dec_val(numeral_body(s)) <= u64::MAX
}

/// Parse an unsigned 64-bit decimal numeral (optional leading plus
/// sign): `Some(v)` exactly when the bytes form an in-range numeral, and
/// then `v` is its value.
pub fn parse_u64(s: &[u8]) -> (r: Option<u64>)
    ensures
        r is Some <==> is_u64_numeral(s@),
        r is Some ==> r->0 == dec_val(numeral_body(s@)),
{
    let n = s.len();
    if n > 0 && s[0] == 43 {
        let body = vstd::slice::slice_subrange(s, 1, n);
        proof {
            assert(body@ == numeral_body(s@));
        }
        parse_digits(body)
    } else {
        proof {
            assert(s@ == numeral_body(s@));
        }
        parse_digits(s)
    }
}

/// Parse a bare digit string.
fn parse_digits(s: &[u8]) -> (r: Option<u64>)
    ensures
        match r {
            Some(v) => s@.len() > 0 && all_digits(s@) && v == dec_val(s@) && dec_val(s@)
                <= u64::MAX,
            None => s@.len() == 0 || !all_digits(s@) || dec_val(s@) > u64::MAX,
        },
{
    let n = s.len();
    if n == 0 {
        return None;
    }
    let mut acc: u64 = 0;
    let mut i: usize = 0;
    proof {
        assert(s@.subrange(0, 0) =~= Seq::<u8>::empty());
    }
    while i < n
        invariant
            i <= n,
            n == s@.len(),
            all_digits(s@.subrange(0, i as int)),
            acc == dec_val(s@.subrange(0, i as int)),
        decreases n - i,
    {
        let b = s[i];
        if b < 48 || b > 57 {
            return None;
        }
        let d = (b - 48) as u64;
        proof {
            let p = s@.subrange(0, i + 1);
            assert(p.drop_last() =~= s@.subrange(0, i as int));
            assert(p.last() == s@[i as int]);
            assert(all_digits(p)) by {
                assert(forall|k: int|
                    0 <= k < i ==> #[trigger] p[k] == s@.subrange(0, i as int)[k]);
            }
        }
        if acc > (u64::MAX - d) / 10 {
            proof {
                // even the prefix through this digit no longer fits, and
                // appending digits never shrinks the value
                assert(acc * 10 + d > u64::MAX) by (nonlinear_arith)
                    requires
                        acc > (u64::MAX - d) / 10,
                        0 <= d <= 9,
                ;
                if all_digits(s@) {
                    lemma_dec_val_prefix(s@, i + 1);
                    assert(dec_val(s@.subrange(0, i + 1)) == acc * 10 + d);
                }
            }
            return None;
        }
        proof {
            assert(acc * 10 + d <= u64::MAX) by (nonlinear_arith)
                requires
                    acc <= (u64::MAX - d) / 10,
                    0 <= d <= 9,
            ;
        }
        acc = acc * 10 + d;
        i = i + 1;
    }
    proof {
        assert(s@.subrange(0, n as int) =~= s@);
    }
    Some(acc)
}

/// Parse the three fields of one ingestion record into an edge event
/// `(src, dst, t)`: `Some` exactly when all three fields are present and
/// are in-range decimal numerals, and then the triple holds their
/// values.
pub fn parse_record(src: Option<&[u8]>, dst: Option<&[u8]>, t: Option<&[u8]>) -> (r: Option<
    (u64, u64, u64),
>)
    ensures
        r is Some <==> {
            &&& src is Some && is_u64_numeral(src->0@)
            &&& dst is Some && is_u64_numeral(dst->0@)
            &&& t is Some && is_u64_numeral(t->0@)
        },
        r is Some ==> {
            &&& (r->0).0 == dec_val(numeral_body(src->0@))
            &&& (r->0).1 == dec_val(numeral_body(dst->0@))
            &&& (r->0).2 == dec_val(numeral_body(t->0@))
        },
{
    let s = match src {
        Some(f) => match parse_u64(f) {
            Some(v) => v,
            None => {
                return None;
            },
        },
        None => {
            return None;
        },
    };
    let d = match dst {
        Some(f) => match parse_u64(f) {
            Some(v) => v,
            None => {
                return None;
            },
        },
        None => {
            return None;
        },
    };
    let tv = match t {
        Some(f) => match parse_u64(f) {
            Some(v) => v,
            None => {
                return None;
            },
        },
        None => {
            return None;
        },
    };
    Some((s, d, tv))
}

} // verus!
