//! The error reporter: one caller-facing value for every outcome.
//!
//! Every parse failure becomes an [`Error`] with a fixed message built
//! from the structured [`ParseError`]; a help request becomes an [`Error`]
//! carrying the rendered help text of the command it was requested at,
//! with the help flag set.

use vstd::prelude::*;
use crate::bytes::push_all;
use crate::error::{ErrS, Error, ParseError};
use crate::grammar::Cmd;
use crate::grammar::Grammar;
use crate::help::help_text;
use crate::help::render_help;

verus! {

/// The bytes of `unknown switch: `.
pub open spec fn unknown_sw_lit() -> Seq<u8> {
    seq![('u' as u8), ('n' as u8), ('k' as u8), ('n' as u8), ('o' as u8), ('w' as u8), ('n' as u8), (' ' as u8), ('s' as u8), ('w' as u8), ('i' as u8), ('t' as u8), ('c' as u8), ('h' as u8), (':' as u8), (' ' as u8)]
}

/// Builds the bytes of `unknown switch: `.
fn x_unknown_sw_lit() -> (r: Vec<u8>)
    ensures
        r@ == unknown_sw_lit(),
{
    let mut v: Vec<u8> = Vec::new();
    v.push(('u' as u8));
    v.push(('n' as u8));
    v.push(('k' as u8));
    v.push(('n' as u8));
    v.push(('o' as u8));
    v.push(('w' as u8));
    v.push(('n' as u8));
    v.push((' ' as u8));
    v.push(('s' as u8));
    v.push(('w' as u8));
    v.push(('i' as u8));
    v.push(('t' as u8));
    v.push(('c' as u8));
    v.push(('h' as u8));
    v.push((':' as u8));
    v.push((' ' as u8));
    proof {
        assert(v@ =~= unknown_sw_lit());
    }
    v
}

/// The bytes of `unexpected argument: `.
pub open spec fn unexpected_lit() -> Seq<u8> {
    seq![('u' as u8), ('n' as u8), ('e' as u8), ('x' as u8), ('p' as u8), ('e' as u8), ('c' as u8), ('t' as u8), ('e' as u8), ('d' as u8), (' ' as u8), ('a' as u8), ('r' as u8), ('g' as u8), ('u' as u8), ('m' as u8), ('e' as u8), ('n' as u8), ('t' as u8), (':' as u8), (' ' as u8)]
}

/// Builds the bytes of `unexpected argument: `.
fn x_unexpected_lit() -> (r: Vec<u8>)
    ensures
        r@ == unexpected_lit(),
{
    let mut v: Vec<u8> = Vec::new();
    v.push(('u' as u8));
    v.push(('n' as u8));
    v.push(('e' as u8));
    v.push(('x' as u8));
    v.push(('p' as u8));
    v.push(('e' as u8));
    v.push(('c' as u8));
    v.push(('t' as u8));
    v.push(('e' as u8));
    v.push(('d' as u8));
    v.push((' ' as u8));
    v.push(('a' as u8));
    v.push(('r' as u8));
    v.push(('g' as u8));
    v.push(('u' as u8));
    v.push(('m' as u8));
    v.push(('e' as u8));
    v.push(('n' as u8));
    v.push(('t' as u8));
    v.push((':' as u8));
    v.push((' ' as u8));
    proof {
        assert(v@ =~= unexpected_lit());
    }
    v
}

/// The bytes of `missing value for --`.
pub open spec fn missing_val_lit() -> Seq<u8> {
    seq![('m' as u8), ('i' as u8), ('s' as u8), ('s' as u8), ('i' as u8), ('n' as u8), ('g' as u8), (' ' as u8), ('v' as u8), ('a' as u8), ('l' as u8), ('u' as u8), ('e' as u8), (' ' as u8), ('f' as u8), ('o' as u8), ('r' as u8), (' ' as u8), ('-' as u8), ('-' as u8)]
}

/// Builds the bytes of `missing value for --`.
fn x_missing_val_lit() -> (r: Vec<u8>)
    ensures
        r@ == missing_val_lit(),
{
    let mut v: Vec<u8> = Vec::new();
    v.push(('m' as u8));
    v.push(('i' as u8));
    v.push(('s' as u8));
    v.push(('s' as u8));
    v.push(('i' as u8));
    v.push(('n' as u8));
    v.push(('g' as u8));
    v.push((' ' as u8));
    v.push(('v' as u8));
    v.push(('a' as u8));
    v.push(('l' as u8));
    v.push(('u' as u8));
    v.push(('e' as u8));
    v.push((' ' as u8));
    v.push(('f' as u8));
    v.push(('o' as u8));
    v.push(('r' as u8));
    v.push((' ' as u8));
    v.push(('-' as u8));
    v.push(('-' as u8));
    proof {
        assert(v@ =~= missing_val_lit());
    }
    v
}

/// The bytes of `duplicate switch: --`.
pub open spec fn dup_sw_lit() -> Seq<u8> {
    seq![('d' as u8), ('u' as u8), ('p' as u8), ('l' as u8), ('i' as u8), ('c' as u8), ('a' as u8), ('t' as u8), ('e' as u8), (' ' as u8), ('s' as u8), ('w' as u8), ('i' as u8), ('t' as u8), ('c' as u8), ('h' as u8), (':' as u8), (' ' as u8), ('-' as u8), ('-' as u8)]
}

/// Builds the bytes of `duplicate switch: --`.
fn x_dup_sw_lit() -> (r: Vec<u8>)
    ensures
        r@ == dup_sw_lit(),
{
    let mut v: Vec<u8> = Vec::new();
    v.push(('d' as u8));
    v.push(('u' as u8));
    v.push(('p' as u8));
    v.push(('l' as u8));
    v.push(('i' as u8));
    v.push(('c' as u8));
    v.push(('a' as u8));
    v.push(('t' as u8));
    v.push(('e' as u8));
    v.push((' ' as u8));
    v.push(('s' as u8));
    v.push(('w' as u8));
    v.push(('i' as u8));
    v.push(('t' as u8));
    v.push(('c' as u8));
    v.push(('h' as u8));
    v.push((':' as u8));
    v.push((' ' as u8));
    v.push(('-' as u8));
    v.push(('-' as u8));
    proof {
        assert(v@ =~= dup_sw_lit());
    }
    v
}

/// The bytes of `missing required: `.
pub open spec fn missing_req_lit() -> Seq<u8> {
    seq![('m' as u8), ('i' as u8), ('s' as u8), ('s' as u8), ('i' as u8), ('n' as u8), ('g' as u8), (' ' as u8), ('r' as u8), ('e' as u8), ('q' as u8), ('u' as u8), ('i' as u8), ('r' as u8), ('e' as u8), ('d' as u8), (':' as u8), (' ' as u8)]
}

/// Builds the bytes of `missing required: `.
fn x_missing_req_lit() -> (r: Vec<u8>)
    ensures
        r@ == missing_req_lit(),
{
    let mut v: Vec<u8> = Vec::new();
    v.push(('m' as u8));
    v.push(('i' as u8));
    v.push(('s' as u8));
    v.push(('s' as u8));
    v.push(('i' as u8));
    v.push(('n' as u8));
    v.push(('g' as u8));
    v.push((' ' as u8));
    v.push(('r' as u8));
    v.push(('e' as u8));
    v.push(('q' as u8));
    v.push(('u' as u8));
    v.push(('i' as u8));
    v.push(('r' as u8));
    v.push(('e' as u8));
    v.push(('d' as u8));
    v.push((':' as u8));
    v.push((' ' as u8));
    proof {
        assert(v@ =~= missing_req_lit());
    }
    v
}

/// The bytes of `bad value for `.
pub open spec fn bad_val_lit() -> Seq<u8> {
    seq![('b' as u8), ('a' as u8), ('d' as u8), (' ' as u8), ('v' as u8), ('a' as u8), ('l' as u8), ('u' as u8), ('e' as u8), (' ' as u8), ('f' as u8), ('o' as u8), ('r' as u8), (' ' as u8)]
}

/// Builds the bytes of `bad value for `.
fn x_bad_val_lit() -> (r: Vec<u8>)
    ensures
        r@ == bad_val_lit(),
{
    let mut v: Vec<u8> = Vec::new();
    v.push(('b' as u8));
    v.push(('a' as u8));
    v.push(('d' as u8));
    v.push((' ' as u8));
    v.push(('v' as u8));
    v.push(('a' as u8));
    v.push(('l' as u8));
    v.push(('u' as u8));
    v.push(('e' as u8));
    v.push((' ' as u8));
    v.push(('f' as u8));
    v.push(('o' as u8));
    v.push(('r' as u8));
    v.push((' ' as u8));
    proof {
        assert(v@ =~= bad_val_lit());
    }
    v
}

/// The bytes of `: `.
pub open spec fn colon_sp_lit() -> Seq<u8> {
    seq![(':' as u8), (' ' as u8)]
}

/// Builds the bytes of `: `.
fn x_colon_sp_lit() -> (r: Vec<u8>)
    ensures
        r@ == colon_sp_lit(),
{
    let mut v: Vec<u8> = Vec::new();
    v.push((':' as u8));
    v.push((' ' as u8));
    proof {
        assert(v@ =~= colon_sp_lit());
    }
    v
}


/// The display message of each error: a fixed prefix and the names the
/// error carries; a help request's message is the rendered help text.
pub open spec fn err_msg(nodes: Seq<Cmd>, e: ErrS) -> Seq<u8> {
    match e {
        ErrS::UnknownSwitch { token } => unknown_sw_lit() + token,
        ErrS::UnexpectedArgument { token } => unexpected_lit() + token,
        ErrS::MissingValue { switch } => missing_val_lit() + switch,
        ErrS::DuplicateSwitch { switch } => dup_sw_lit() + switch,
        ErrS::MissingRequired { name } => missing_req_lit() + name,
        ErrS::TypeConversionFailure { name, raw, tag } => bad_val_lit() + name + colon_sp_lit()
            + raw,
        ErrS::HelpRequested { path } => help_text(nodes, path),
    }
}

/// Turns a structured parse error into the caller-facing [`Error`]: the
/// message of [`err_msg`], with the help flag exactly on a help request.
pub fn to_error(g: &Grammar, pe: ParseError) -> (r: Error)
    requires
        g.wf(),
        pe@ matches ErrS::HelpRequested { path } ==> path.len() >= 1 && forall|k: int|
            0 <= k < path.len() ==> (#[trigger] path[k]) < g.nodes().len(),
    ensures
        r@.help == (pe@ is HelpRequested),
        r@.msg == err_msg(g.nodes(), pe@),
{
    match pe {
        ParseError::UnknownSwitch { token } => {
            let mut m = x_unknown_sw_lit();
            push_all(&mut m, &token);
            Error::new(m)
        },
        ParseError::UnexpectedArgument { token } => {
            let mut m = x_unexpected_lit();
            push_all(&mut m, &token);
            Error::new(m)
        },
        ParseError::MissingValue { switch } => {
            let mut m = x_missing_val_lit();
            push_all(&mut m, &switch);
            Error::new(m)
        },
        ParseError::DuplicateSwitch { switch } => {
            let mut m = x_dup_sw_lit();
            push_all(&mut m, &switch);
            Error::new(m)
        },
        ParseError::MissingRequired { name } => {
            let mut m = x_missing_req_lit();
            push_all(&mut m, &name);
            Error::new(m)
        },
        ParseError::TypeConversionFailure { name, raw, tag: _ } => {
            let mut m = x_bad_val_lit();
            push_all(&mut m, &name);
            push_all(&mut m, &x_colon_sp_lit());
            push_all(&mut m, &raw);
            Error::new(m)
        },
        ParseError::HelpRequested { path } => {
            let m = render_help(g, &path);
            Error::new_help(m)
        },
    }
}

} // verus!
