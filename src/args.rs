use vstd::prelude::*;
use crate::error::Error;

verus! {

pub open spec fn is_hex_digit(c: u8) -> bool {
    (48 <= c <= 57) || (97 <= c <= 102) || (65 <= c <= 70)
}

pub open spec fn hex_digit_value(c: u8) -> int {
    if c <= 57 {
        c - 48
    } else if c >= 97 {
        c - 87
    } else {
        c - 55
    }
}

pub open spec fn all_hex(s: Seq<u8>) -> bool {
    forall|i: int| 0 <= i < s.len() ==> is_hex_digit(#[trigger] s[i])
}

/// `b` is what the hex text `s` spells, two digits per byte, high digit
/// first.
pub open spec fn hex_spells(s: Seq<u8>, b: Seq<u8>) -> bool {
    &&& s.len() == 2 * b.len()
    &&& forall|i: int|
        0 <= i < b.len() ==> #[trigger] b[i] == 16 * hex_digit_value(s[2 * i]) + hex_digit_value(
            s[2 * i + 1],
        )
}

/// Relies on faster_hex::hex_decode: into a destination of half the
/// source's length it succeeds exactly when the source has even length and
/// holds only hex digits of either case, and then writes each digit pair as
/// one byte, high digit first.
#[verifier::external_body]
fn hex_to_bytes(src: &[u8]) -> (r: Option<Vec<u8>>)
    ensures
        r is Some <==> (src@.len() % 2 == 0 && all_hex(src@)),
        r is Some ==> hex_spells(src@, r->Some_0@),
{
    let mut dst = vec![0u8; src.len() / 2];
    match faster_hex::hex_decode(src, &mut dst) {
        Ok(()) => Some(dst),
        Err(_) => None,
    }
}

/// Turns a hex argument into the bytes it spells.
pub fn decode_hex_arg(src: &[u8]) -> (r: Result<Vec<u8>, Error>)
    ensures
        src@.len() % 2 != 0 ==> r == Err::<Vec<u8>, Error>(Error::UnexpectedArgBytesLength),
        src@.len() % 2 == 0 && !all_hex(src@) ==> r == Err::<Vec<u8>, Error>(
            Error::InvalidArgFormat,
        ),
        src@.len() % 2 == 0 && all_hex(src@) ==> r is Ok && hex_spells(src@, r->Ok_0@),
{
    if src.len() % 2 != 0 {
        return Err(Error::UnexpectedArgBytesLength);
    }
    match hex_to_bytes(src) {
        Some(b) => Ok(b),
        None => Err(Error::InvalidArgFormat),
    }
}

pub open spec fn is_digit(c: u8) -> bool {
    48 <= c <= 57
}

pub open spec fn all_digits(s: Seq<u8>) -> bool {
    forall|i: int| 0 <= i < s.len() ==> is_digit(#[trigger] s[i])
}

/// The number that a run of decimal digits spells.
pub open spec fn decimal_value(s: Seq<u8>) -> int
    decreases s.len(),
{
    if s.len() == 0 {
        0
    } else {
        10 * decimal_value(s.drop_last()) + (s.last() - 48)
    }
}

proof fn lemma_decimal_grows(s: Seq<u8>, i: int)
    requires
        0 <= i <= s.len(),
        all_digits(s),
    ensures
        decimal_value(s.take(i)) <= decimal_value(s),
        0 <= decimal_value(s.take(i)),
    decreases s.len(),
{
    if i == s.len() {
        assert(s.take(i) =~= s);
        if s.len() > 0 {
            lemma_decimal_grows(s.drop_last(), i - 1);
        }
    } else {
        assert(s.drop_last().take(i) =~= s.take(i));
        lemma_decimal_grows(s.drop_last(), i);
        lemma_decimal_grows(s.drop_last(), s.len() - 1);
        assert(s.drop_last().take(s.len() - 1) =~= s.drop_last());
    }
}

/// Reads a run of one or more ASCII digits whose value fits in 64 bits.
fn parse_digits(s: &[u8]) -> (r: Result<u64, Error>)
    ensures
        r is Ok <==> (s@.len() > 0 && all_digits(s@) && decimal_value(s@) <= u64::MAX),
        r is Ok ==> r->Ok_0 == decimal_value(s@),
        r is Err ==> r->Err_0 == Error::InvalidArgFormat,
{
    if s.len() == 0 {
        return Err(Error::InvalidArgFormat);
    }
    let mut i: usize = 0;
    while i < s.len()
        invariant
            i <= s@.len(),
            forall|j: int| 0 <= j < i ==> is_digit(#[trigger] s@[j]),
        decreases s.len() - i,
    {
        if s[i] < 48 || s[i] > 57 {
            return Err(Error::InvalidArgFormat);
        }
        i = i + 1;
    }
    let mut acc: u64 = 0;
    let mut k: usize = 0;
    assert(s@.take(0) =~= Seq::<u8>::empty());
    while k < s.len()
        invariant
            k <= s@.len(),
            all_digits(s@),
            acc as int == decimal_value(s@.take(k as int)),
        decreases s.len() - k,
    {
        let d = (s[k] - 48) as u64;
        assert(s@.take(k + 1).drop_last() =~= s@.take(k as int));
        if acc > (u64::MAX - d) / 10 {
            proof {
                let q = (u64::MAX - d) as int / 10;
                assert(10 * acc + d > u64::MAX) by (nonlinear_arith)
                    requires
                        acc >= q + 1,
                        q == (u64::MAX - d) as int / 10,
                        0 <= d <= 9,
                ;
                lemma_decimal_grows(s@, k + 1);
            }
            return Err(Error::InvalidArgFormat);
        }
        proof {
            let q = (u64::MAX - d) as int / 10;
            assert(10 * acc + d <= u64::MAX) by (nonlinear_arith)
                requires
                    acc <= q,
                    q == (u64::MAX - d) as int / 10,
                    0 <= d <= 9,
            ;
        }
        acc = 10 * acc + d;
        k = k + 1;
    }
    assert(s@.take(k as int) =~= s@);
    Ok(acc)
}

/// The digits of a seed's text: what follows one leading `+`, if there is
/// one.
pub open spec fn seed_digits(s: Seq<u8>) -> Seq<u8> {
    if s.len() > 0 && s[0] == 43 {
        s.subrange(1, s.len() as int)
    } else {
        s
    }
}

/// Whether `s` is a seed's decimal text: an optional `+`, then one or more
/// ASCII digits whose value fits in 64 bits.
pub open spec fn valid_seed(s: Seq<u8>) -> bool {
    let d = seed_digits(s);
    d.len() > 0 && all_digits(d) && decimal_value(d) <= u64::MAX
}

/// Reads the generator seed from its decimal text.
pub fn parse_seed(s: &[u8]) -> (r: Result<u64, Error>)
    ensures
        r is Ok <==> valid_seed(s@),
        r is Ok ==> r->Ok_0 == decimal_value(seed_digits(s@)),
        r is Err ==> r->Err_0 == Error::InvalidArgFormat,
{
    if s.len() > 0 && s[0] == 43 {
        let rest = vstd::slice::slice_subrange(s, 1, s.len());
        parse_digits(rest)
    } else {
        parse_digits(s)
    }
}

} // verus!
