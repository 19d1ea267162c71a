//! The tokenizer: classifying raw arguments.
//!
//! An argument arrives either as text or as opaque bytes ([`Arg`]); the
//! classifier turns it into a long switch (with an optional inline value
//! split at the first `=`), a short switch, the literal `--` separator, or a
//! bare value.  After the separator every argument is bare, and a
//! bytes-only argument is always bare.

use vstd::prelude::*;
use crate::bytes::sub_bytes;

verus! {

/// A raw command line argument: text, or bytes that are not valid text.
pub enum Arg {
    Text(Vec<u8>),
    Bytes(Vec<u8>),
}

/// What specifications see of an [`Arg`]: whether it is textual, and its
/// bytes.
pub ghost struct ArgS {
    pub is_text: bool,
    pub bytes: Seq<u8>,
}

impl View for Arg {
    type V = ArgS;

    open spec fn view(&self) -> ArgS {
        match self {
            Arg::Text(v) => ArgS { is_text: true, bytes: v@ },
            Arg::Bytes(v) => ArgS { is_text: false, bytes: v@ },
        }
    }
}

/// A classified token.
pub enum Token {
    /// `--name` or `--name=value`.
    Long { name: Vec<u8>, inline: Option<Vec<u8>> },
    /// `-x`: the text after the single dash (one byte when well-formed).
    Short { body: Vec<u8> },
    /// The literal `--`.
    Separator,
    /// A plain value.
    Bare,
}

/// The specification-level twin of [`Token`].
pub ghost enum TokenS {
    Long { name: Seq<u8>, inline: Option<Seq<u8>> },
    Short { body: Seq<u8> },
    Separator,
    Bare,
}

impl View for Token {
    type V = TokenS;

    open spec fn view(&self) -> TokenS {
        match self {
            Token::Long { name, inline } => TokenS::Long {
                name: name@,
                inline: match inline {
                    Some(v) => Some(v@),
                    None => None,
                },
            },
            Token::Short { body } => TokenS::Short { body: body@ },
            Token::Separator => TokenS::Separator,
            Token::Bare => TokenS::Bare,
        }
    }
}

/// The index of the first `=` in `s` at or after `k`, or `s.len()` if none.
pub open spec fn first_eq(s: Seq<u8>, k: int) -> int
    decreases s.len() - k,
{
    if k < 0 || k >= s.len() {
        s.len() as int
    } else if s[k] == ('=' as u8) {
        k
    } else {
        first_eq(s, k + 1)
    }
}

/// `first_eq` is constant along a prefix free of `=`.
proof fn lemma_first_eq_chain(s: Seq<u8>, a: int, b: int)
    requires
        0 <= a <= b <= s.len(),
        forall|j: int| a <= j < b ==> s[j] != ('=' as u8),
    ensures
        first_eq(s, a) == first_eq(s, b),
    decreases b - a,
{
    if a < b {
        assert(s[a] != ('=' as u8));
        lemma_first_eq_chain(s, a + 1, b);
    }
}

/// A byte string without `=` has no first `=` before its end.
pub proof fn lemma_first_eq_free(s: Seq<u8>)
    requires
        forall|j: int| 0 <= j < s.len() ==> s[j] != ('=' as u8),
    ensures
        first_eq(s, 0) == s.len(),
{
    lemma_first_eq_chain(s, 0, s.len() as int);
}

/// The first `=` is at `e` when nothing before `e` is one and `s[e]` is.
pub proof fn lemma_first_eq_stops(s: Seq<u8>, e: int)
    requires
        0 <= e < s.len(),
        forall|j: int| 0 <= j < e ==> s[j] != ('=' as u8),
        s[e] == ('=' as u8),
    ensures
        first_eq(s, 0) == e,
{
    lemma_first_eq_chain(s, 0, e);
}

/// The classification of one argument: the long/short/separator forms only
/// apply to textual arguments before the separator.
pub open spec fn classify(a: ArgS, after_sep: bool) -> TokenS {
    if !a.is_text || after_sep {
        TokenS::Bare
    } else {
        let v = a.bytes;
        if v == seq![('-' as u8), ('-' as u8)] {
            TokenS::Separator
        } else if v.len() > 2 && v[0] == ('-' as u8) && v[1] == ('-' as u8) {
            let rest = v.subrange(2, v.len() as int);
            let e = first_eq(rest, 0);
            if e < rest.len() {
                TokenS::Long {
                    name: rest.subrange(0, e),
                    inline: Some(rest.subrange(e + 1, rest.len() as int)),
                }
            } else {
                TokenS::Long { name: rest, inline: None }
            }
        } else if v.len() >= 2 && v[0] == ('-' as u8) {
            TokenS::Short { body: v.subrange(1, v.len() as int) }
        } else {
            TokenS::Bare
        }
    }
}

/// Classifies one argument, splitting `--name=value` at the first `=`.
#[verifier::loop_isolation(false)]
pub fn classify_arg(a: &Arg, after_sep: bool) -> (t: Token)
    ensures
        t@ == classify(a@, after_sep),
{
    let v: &Vec<u8> = match a {
        Arg::Text(v) => {
            if after_sep {
                return Token::Bare;
            }
            v
        },
        Arg::Bytes(_) => {
            return Token::Bare;
        },
    };
    if v.len() == 2 && v[0] == ('-' as u8) && v[1] == ('-' as u8) {
        proof {
            assert(v@ =~= seq![('-' as u8), ('-' as u8)]);
        }
        return Token::Separator;
    }
    proof {
        if v@.len() == 2 && !(v@[0] == ('-' as u8) && v@[1] == ('-' as u8)) {
            assert(v@ != seq![('-' as u8), ('-' as u8)]);
        }
        if v@.len() != 2 {
            assert(v@ != seq![('-' as u8), ('-' as u8)]);
        }
    }
    if v.len() > 2 && v[0] == ('-' as u8) && v[1] == ('-' as u8) {
        let ghost rest = v@.subrange(2, v@.len() as int);
        let mut e: usize = 2;
        while e < v.len()
            invariant
                2 <= e <= v@.len(),
                forall|j: int| 2 <= j < e ==> v@[j] != ('=' as u8),
            decreases v.len() - e,
        {
            if v[e] == ('=' as u8) {
                break;
            }
            e = e + 1;
        }
        proof {
            assert forall|j: int| 0 <= j < e - 2 implies rest[j] != ('=' as u8) by {
                assert(rest[j] == v@[j + 2]);
            }
            lemma_first_eq_chain(rest, 0, e - 2);
        }
        if e < v.len() {
            proof {
                assert(rest[e - 2] == ('=' as u8));
                assert(first_eq(rest, e - 2) == e - 2);
                assert(rest.subrange(0, e - 2) =~= v@.subrange(2, e as int));
                assert(rest.subrange(e - 2 + 1, rest.len() as int) =~= v@.subrange(
                    e + 1,
                    v@.len() as int,
                ));
            }
            let name = sub_bytes(v, 2, e);
            let inline = sub_bytes(v, e + 1, v.len());
            return Token::Long { name, inline: Some(inline) };
        } else {
            proof {
                assert(first_eq(rest, e - 2) == rest.len());
                assert(rest =~= v@.subrange(2, v@.len() as int));
            }
            let name = sub_bytes(v, 2, v.len());
            return Token::Long { name, inline: None };
        }
    }
    if v.len() >= 2 && v[0] == ('-' as u8) {
        let body = sub_bytes(v, 1, v.len());
        return Token::Short { body };
    }
    Token::Bare
}

} // verus!
