//! The value coercer: raw argument to typed value.
//!
//! The two raw type tags copy the argument bytes verbatim and never fail;
//! the textual tags demand a textual argument, and the integer tag parses
//! an optionally signed decimal number into an `i64`.

use vstd::prelude::*;
use crate::grammar::TypeTag;
use crate::token::ArgS;
use crate::token::Arg;

verus! {

/// A typed argument value.
#[derive(Debug)]
pub enum Value {
    /// Raw or textual bytes, verbatim.
    Bytes(Vec<u8>),
    /// A parsed integer.
    Int(i64),
    /// The mark a boolean switch occurrence leaves.
    Present,
}

/// The specification-level twin of [`Value`].
pub ghost enum ValueS {
    Bytes(Seq<u8>),
    Int(i64),
    Present,
}

impl View for Value {
    type V = ValueS;

    open spec fn view(&self) -> ValueS {
        match self {
            Value::Bytes(v) => ValueS::Bytes(v@),
            Value::Int(n) => ValueS::Int(*n),
            Value::Present => ValueS::Present,
        }
    }
}

/// The view of an optional value.
pub open spec fn opt_value_view(o: Option<Value>) -> Option<ValueS> {
    match o {
        Some(v) => Some(v@),
        None => None,
    }
}

/// Is `b` an ASCII decimal digit?
pub open spec fn is_digit(b: u8) -> bool {
    ('0' as u8) <= b <= ('9' as u8)
}

/// The number denoted by a digit string, most significant first.
pub open spec fn digits_val(s: Seq<u8>) -> int
    decreases s.len(),
{
    if s.len() == 0 {
        0
    } else {
        digits_val(s.drop_last()) * 10 + (s.last() - ('0' as u8))
    }
}

/// Are all bytes of `s` digits?
pub open spec fn all_digits(s: Seq<u8>) -> bool {
    forall|j: int| 0 <= j < s.len() ==> is_digit(#[trigger] s[j])
}

/// The integer a textual argument denotes: an optional sign, then one or
/// more decimal digits; anything else denotes nothing.
pub open spec fn int_rep(s: Seq<u8>) -> Option<int> {
    let signed = s.len() > 0 && (s[0] == ('-' as u8) || s[0] == ('+' as u8));
    let ds = if signed {
        s.subrange(1, s.len() as int)
    } else {
        s
    };
    if ds.len() == 0 || !all_digits(ds) {
        None
    } else if s.len() > 0 && s[0] == ('-' as u8) {
        Some(-digits_val(ds))
    } else {
        Some(digits_val(ds))
    }
}

/// The parsed `i64`, when the text denotes an integer in range.
pub open spec fn parse_int_spec(s: Seq<u8>) -> Option<i64> {
    match int_rep(s) {
        Some(v) => if i64::MIN <= v <= i64::MAX {
            Some(v as i64)
        } else {
            None
        },
        None => None,
    }
}

/// A digit string denotes a nonnegative number.
proof fn lemma_digits_nonneg(s: Seq<u8>)
    requires
        all_digits(s),
    ensures
        digits_val(s) >= 0,
    decreases s.len(),
{
    if s.len() > 0 {
        assert(all_digits(s.drop_last())) by {
            assert(forall|j: int| 0 <= j < s.len() - 1 ==> s.drop_last()[j] == s[j]);
        }
        lemma_digits_nonneg(s.drop_last());
    }
}

/// Extending a digit string by one digit multiplies its value by ten and
/// adds the digit.
proof fn lemma_digits_step(s: Seq<u8>, k: int)
    requires
        0 <= k < s.len(),
    ensures
        digits_val(s.subrange(0, k + 1)) == digits_val(s.subrange(0, k)) * 10 + (s[k] - (
        '0' as u8)),
{
    let t = s.subrange(0, k + 1);
    assert(t.drop_last() =~= s.subrange(0, k));
    assert(t.last() == s[k]);
}

/// A longer digit string denotes at least as large a number.
proof fn lemma_digits_mono(s: Seq<u8>, k: int)
    requires
        all_digits(s),
        0 <= k <= s.len(),
    ensures
        digits_val(s.subrange(0, k)) <= digits_val(s),
    decreases s.len() - k,
{
    if k == s.len() {
        assert(s.subrange(0, k) =~= s);
    } else {
        lemma_digits_step(s, k);
        assert(all_digits(s.subrange(0, k))) by {
            assert(forall|j: int| 0 <= j < k ==> s.subrange(0, k)[j] == s[j]);
        }
        lemma_digits_nonneg(s.subrange(0, k));
        assert(digits_val(s.subrange(0, k)) * 10 >= digits_val(s.subrange(0, k))) by (
        nonlinear_arith)
            requires
                digits_val(s.subrange(0, k)) >= 0,
        ;
        lemma_digits_mono(s, k + 1);
    }
}

/// Parses the digit run `s[from..]` as a magnitude, or reports that it
/// exceeds `u64::MAX`.
#[verifier::loop_isolation(false)]
fn parse_digits(s: &Vec<u8>, from: usize) -> (r: Option<u64>)
    requires
        from < s@.len(),
        all_digits(s@.subrange(from as int, s@.len() as int)),
    ensures
        match r {
            Some(m) => m == digits_val(s@.subrange(from as int, s@.len() as int)),
            None => digits_val(s@.subrange(from as int, s@.len() as int)) > u64::MAX,
        },
{
    let ghost ds = s@.subrange(from as int, s@.len() as int);
    let mut acc: u64 = 0;
    let mut i: usize = from;
    while i < s.len()
        invariant
            from <= i <= s@.len(),
            acc == digits_val(ds.subrange(0, i - from)),
        decreases s@.len() - i,
    {
        let d = s[i];
        proof {
            assert(ds[i - from] == s@[i as int]);
            assert(is_digit(d));
            lemma_digits_step(ds, i - from);
        }
        let dv: u64 = (d - ('0' as u8)) as u64;
        if acc > (u64::MAX - dv) / 10 {
            proof {
                assert(digits_val(ds.subrange(0, i - from + 1)) == acc * 10 + dv);
                assert(acc * 10 + dv > u64::MAX) by (nonlinear_arith)
                    requires
                        acc > (u64::MAX - dv) / 10,
                        dv <= 9,
                ;
                lemma_digits_mono(ds, i - from + 1);
            }
            return None;
        }
        proof {
            assert(acc * 10 + dv <= u64::MAX) by (nonlinear_arith)
                requires
                    acc <= (u64::MAX - dv) / 10,
                    dv <= 9,
            ;
        }
        acc = acc * 10 + dv;
        i = i + 1;
    }
    proof {
        assert(ds.subrange(0, ds.len() as int) =~= ds);
    }
    Some(acc)
}

/// Parses an optionally signed decimal integer, exactly when
/// [`parse_int_spec`] allows it.
#[verifier::loop_isolation(false)]
pub fn parse_int(s: &Vec<u8>) -> (r: Option<i64>)
    ensures
        r == parse_int_spec(s@),
{
    if s.len() == 0 {
        return None;
    }
    let signed = s[0] == ('-' as u8) || s[0] == ('+' as u8);
    let neg = s[0] == ('-' as u8);
    let from: usize = if signed {
        1
    } else {
        0
    };
    let ghost ds = if signed {
        s@.subrange(1, s@.len() as int)
    } else {
        s@
    };
    if from >= s.len() {
        // a lone sign has no digits
        return None;
    }
    // check the digits
    let mut i: usize = from;
    while i < s.len()
        invariant
            from <= i <= s@.len(),
            forall|j: int| from <= j < i ==> is_digit(#[trigger] s@[j]),
        decreases s@.len() - i,
    {
        if s[i] < ('0' as u8) || s[i] > ('9' as u8) {
            proof {
                assert(!is_digit(s@[i as int]));
                assert(ds[i - from] == s@[i as int]);
                assert(!all_digits(ds));
            }
            return None;
        }
        i = i + 1;
    }
    proof {
        assert forall|j: int| 0 <= j < ds.len() implies is_digit(#[trigger] ds[j]) by {
            assert(ds[j] == s@[j + from]);
        }
        assert(ds =~= s@.subrange(from as int, s@.len() as int));
        lemma_digits_nonneg(ds);
    }
    let mag = match parse_digits(s, from) {
        Some(m) => m,
        None => {
            // beyond even `u64`, so certainly out of `i64` range
            return None;
        },
    };
    if neg {
        if mag > 9223372036854775808u64 {
            return None;
        }
        if mag == 9223372036854775808u64 {
            return Some(i64::MIN);
        }
        Some(-(mag as i64))
    } else {
        if mag > 9223372036854775807u64 {
            return None;
        }
        Some(mag as i64)
    }
}

/// Coerces one raw argument to the given target type; `None` is a
/// conversion failure.  The raw tags never fail; the textual tags fail on
/// a non-textual argument or, for integers, on malformed digits.
pub open spec fn coerce_spec(tag: TypeTag, a: ArgS) -> Option<ValueS> {
    match tag {
        TypeTag::RawBytes => Some(ValueS::Bytes(a.bytes)),
        TypeTag::RawPath => Some(ValueS::Bytes(a.bytes)),
        TypeTag::Text => if a.is_text {
            Some(ValueS::Bytes(a.bytes))
        } else {
            None
        },
        TypeTag::Integer => if !a.is_text {
            None
        } else {
            match parse_int_spec(a.bytes) {
                Some(n) => Some(ValueS::Int(n)),
                None => None,
            }
        },
    }
}

/// Runs the coercion of [`coerce_spec`] on a raw argument given as its
/// parts: `is_text` tells whether the bytes arrived as valid text.
pub fn coerce(tag: TypeTag, is_text: bool, raw: &Vec<u8>) -> (r: Option<Value>)
    ensures
        opt_value_view(r) == coerce_spec(tag, ArgS { is_text, bytes: raw@ }),
{
    match tag {
        TypeTag::RawBytes => Some(Value::Bytes(crate::bytes::copy_bytes(raw))),
        TypeTag::RawPath => Some(Value::Bytes(crate::bytes::copy_bytes(raw))),
        TypeTag::Text => if is_text {
            Some(Value::Bytes(crate::bytes::copy_bytes(raw)))
        } else {
            None
        },
        TypeTag::Integer => if !is_text {
            None
        } else {
            match parse_int(raw) {
                Some(n) => Some(Value::Int(n)),
                None => None,
            }
        },
    }
}

/// Coerces a whole [`Arg`].
pub fn coerce_arg(tag: TypeTag, a: &Arg) -> (r: Option<Value>)
    ensures
        opt_value_view(r) == coerce_spec(tag, a@),
{
    match a {
        Arg::Text(v) => coerce(tag, true, v),
        Arg::Bytes(v) => coerce(tag, false, v),
    }
}

} // verus!
