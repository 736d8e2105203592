//! The codec abstraction, and its JSON implementation for `usize`.
//!
//! Other value types bring their own implementation of `EncodeDecode`: a
//! JSON codec for every serde type would be bound by serde's traits, which
//! verified code cannot call through.
use vstd::prelude::*;

verus! {

/// Converts values to bytes and back.
///
/// `encoded` and `decoded` describe each direction as a partial function:
/// `None` means the conversion fails.
pub trait EncodeDecode {
    type Value;
    type Error;

    spec fn encoded(value: Self::Value) -> Option<Seq<u8>>;

    spec fn decoded(buff: Seq<u8>) -> Option<Self::Value>;

    fn encode(value: &Self::Value) -> (r: Result<Vec<u8>, Self::Error>)
        ensures
            match r {
                Ok(b) => Self::encoded(*value) == Some(b@),
                Err(_) => Self::encoded(*value) is None,
            },
    ;

    fn decode(buff: &[u8]) -> (r: Result<Self::Value, Self::Error>)
        ensures
            match r {
                Ok(v) => Self::decoded(buff@) == Some(v),
                Err(_) => Self::decoded(buff@) is None,
            },
    ;
}

/// The ASCII decimal digits of `n`, most significant first, without leading zeros.
pub open spec fn decimal_of(n: nat) -> Seq<u8>
    decreases n,
{
    if n < 10 {
        seq![(48 + n) as u8]
    } else {
        decimal_of(n / 10).push((48 + n % 10) as u8)
    }
}

/// Whether every byte of `s` is JSON whitespace: space, tab, line feed or
/// carriage return.
pub open spec fn json_ws(s: Seq<u8>) -> bool {
    forall|i: int| 0 <= i < s.len() ==> s[i] == 32u8 || s[i] == 9u8 || s[i] == 10u8 || s[i] == 13u8
}

/// Whether `b` is JSON text for the number `n`: its decimal digits, without
/// leading zeros, sign, fraction or exponent, with only whitespace around.
pub open spec fn is_json_usize(b: Seq<u8>, n: usize) -> bool {
    exists|l: Seq<u8>, r: Seq<u8>| json_ws(l) && json_ws(r) && b == l + decimal_of(n as nat) + r
}

/// The `usize` that JSON text `b` stands for, or `None` when it stands for none.
pub open spec fn json_usize_decoded(b: Seq<u8>) -> Option<usize> {
    if exists|n: usize| is_json_usize(b, n) {
        Some(choose|n: usize| is_json_usize(b, n))
    } else {
        None
    }
}

proof fn lemma_decimal_len(n: nat)
    ensures
        decimal_of(n).len() >= 1,
        n >= 10 ==> decimal_of(n).len() >= 2,
    decreases n,
{
    if n >= 10 {
        lemma_decimal_len(n / 10);
    }
}

/// Distinct numbers have distinct decimal texts.
pub proof fn lemma_decimal_injective(n: nat, m: nat)
    requires
        decimal_of(n) == decimal_of(m),
    ensures
        n == m,
    decreases n,
{
    lemma_decimal_len(n);
    lemma_decimal_len(m);
    if n < 10 && m < 10 {
        assert(decimal_of(n) == seq![(48 + n) as u8]);
        assert(decimal_of(m) == seq![(48 + m) as u8]);
        assert(decimal_of(n)[0] == (48 + n) as u8);
        assert(decimal_of(m)[0] == (48 + m) as u8);
        assert(48 + n < 256 && 48 + m < 256);
    } else if n >= 10 && m >= 10 {
        let a = decimal_of(n);
        let b = decimal_of(m);
        assert(a.last() == b.last());
        assert(a.drop_last() == decimal_of(n / 10));
        assert(b.drop_last() == decimal_of(m / 10));
        assert(a.last() == (48 + n % 10) as u8);
        assert(b.last() == (48 + m % 10) as u8);
        assert(n % 10 == m % 10);
        lemma_decimal_injective(n / 10, m / 10);
        assert(n == 10 * (n / 10) + n % 10);
        assert(m == 10 * (m / 10) + m % 10);
    } else {
        assert(decimal_of(n).len() != decimal_of(m).len());
    }
}

proof fn lemma_decimal_digits(n: nat)
    ensures
        forall|i: int| 0 <= i < decimal_of(n).len() ==> 48 <= #[trigger] decimal_of(n)[i] <= 57,
    decreases n,
{
    if n >= 10 {
        lemma_decimal_digits(n / 10);
        let p = decimal_of(n / 10);
        assert(decimal_of(n) == p.push((48 + n % 10) as u8));
        assert forall|i: int| 0 <= i < decimal_of(n).len() implies 48 <= #[trigger] decimal_of(n)[i] <= 57 by {
            if i < p.len() {
                assert(decimal_of(n)[i] == p[i]);
            }
        }
    } else {
        assert(decimal_of(n) == seq![(48 + n) as u8]);
    }
}

/// The decimal text of `v`, with nothing around it, stands for `v` alone.
proof fn lemma_json_usize_unique(v: usize, n: usize)
    requires
        is_json_usize(decimal_of(v as nat), n),
    ensures
        n == v,
{
    let b = decimal_of(v as nat);
    let (l, r) = choose|l: Seq<u8>, r: Seq<u8>|
        json_ws(l) && json_ws(r) && b == l + decimal_of(n as nat) + r;
    lemma_decimal_digits(v as nat);
    lemma_decimal_len(n as nat);
    if l.len() > 0 {
        assert(b[0] == l[0]);
    }
    if r.len() > 0 {
        assert(b[b.len() - 1] == r[r.len() - 1]);
    }
    assert(decimal_of(n as nat) == b);
    lemma_decimal_injective(n as nat, v as nat);
}

/// Relies on serde_json::to_vec: a `usize` is written as its decimal digits,
/// and writing into a `Vec` cannot fail.
#[verifier::external_body]
fn json_encode_usize(value: &usize) -> (r: Result<Vec<u8>, serde_json::Error>)
    ensures
        r is Ok,
        r->Ok_0@ == decimal_of(*value as nat),
{
    serde_json::to_vec(value)
}

/// Relies on serde_json::from_slice for a `usize`: whitespace is skipped on
/// both sides of the number; the number is unsigned digits with a single
/// leading zero at most; a sign, fraction or exponent, a value out of range,
/// or anything else around it is rejected.
#[verifier::external_body]
fn json_decode_usize(buff: &[u8]) -> (r: Result<usize, serde_json::Error>)
    ensures
        r is Ok <==> json_usize_decoded(buff@) is Some,
        r is Ok ==> json_usize_decoded(buff@) == Some(r->Ok_0),
{
    serde_json::from_slice(buff)
}

#[verifier::external_type_specification]
#[verifier::external_body]
pub struct ExJsonError(serde_json::Error);

/// The JSON codec for `usize`: a number is stored as its decimal text.
impl EncodeDecode for usize {
    type Value = usize;

    type Error = serde_json::Error;

    open spec fn encoded(value: usize) -> Option<Seq<u8>> {
        Some(decimal_of(value as nat))
    }

    open spec fn decoded(buff: Seq<u8>) -> Option<usize> {
        json_usize_decoded(buff)
    }

    fn encode(value: &usize) -> (r: Result<Vec<u8>, serde_json::Error>) {
        json_encode_usize(value)
    }

    fn decode(buff: &[u8]) -> (r: Result<usize, serde_json::Error>) {
        json_decode_usize(buff)
    }
}

/// Whether every value that `C` encodes decodes back to itself.
pub open spec fn round_trips<C: EncodeDecode>() -> bool {
    forall|v: C::Value| (#[trigger] C::encoded(v)) is Some ==> C::decoded(C::encoded(v)->0) == Some(v)
}

/// The JSON codec for `usize` encodes every value, and decoding what it
/// wrote for a value gives that value back.
pub proof fn lemma_json_usize_round_trip()
    ensures
        forall|v: usize| (#[trigger] <usize as EncodeDecode>::encoded(v)) is Some,
        round_trips::<usize>(),
{
    assert forall|v: usize| (#[trigger] <usize as EncodeDecode>::encoded(v)) is Some implies
        <usize as EncodeDecode>::decoded(<usize as EncodeDecode>::encoded(v)->0) == Some(v) by {
        let b = decimal_of(v as nat);
        let e = Seq::<u8>::empty();
        assert(b == e + b + e);
        assert(is_json_usize(b, v));
        let n = choose|n: usize| is_json_usize(b, n);
        lemma_json_usize_unique(v, n);
    }
}

} // verus!
