//! The help renderer: deterministic usage and help text from the grammar.
//!
//! The layout is fixed: a `Usage:` line listing the command's positionals,
//! the switches visible along its path, and the built-in `[-h]`; an
//! `Arguments:` section when positionals exist; an `Options:` section with
//! every visible switch and the built-in help entry; and a `Commands:`
//! section when the command has children.  Entry columns are padded to a
//! fixed width.  The text depends only on the grammar and the command
//! path, never on parse state.

use vstd::prelude::*;
use crate::bytes::{copy_bytes, push_all};
use crate::grammar::{Arity, Cmd, Grammar, Positional, Switch};

verus! {

/// The bytes of `Usage:`.
pub open spec fn usage_lit() -> Seq<u8> {
    seq![('U' as u8), ('s' as u8), ('a' as u8), ('g' as u8), ('e' as u8), (':' as u8)]
}

/// Builds the bytes of `Usage:`.
fn x_usage_lit() -> (r: Vec<u8>)
    ensures
        r@ == usage_lit(),
{
    let mut v: Vec<u8> = Vec::new();
    v.push(('U' as u8));
    v.push(('s' as u8));
    v.push(('a' as u8));
    v.push(('g' as u8));
    v.push(('e' as u8));
    v.push((':' as u8));
    proof {
        assert(v@ =~= usage_lit());
    }
    v
}

/// The bytes of `\n`.
pub open spec fn nl_lit() -> Seq<u8> {
    seq![('\n' as u8)]
}

/// Builds the bytes of `\n`.
fn x_nl_lit() -> (r: Vec<u8>)
    ensures
        r@ == nl_lit(),
{
    let mut v: Vec<u8> = Vec::new();
    v.push(('\n' as u8));
    proof {
        assert(v@ =~= nl_lit());
    }
    v
}

/// The bytes of ` `.
pub open spec fn sp_lit() -> Seq<u8> {
    seq![(' ' as u8)]
}

/// Builds the bytes of ` `.
fn x_sp_lit() -> (r: Vec<u8>)
    ensures
        r@ == sp_lit(),
{
    let mut v: Vec<u8> = Vec::new();
    v.push((' ' as u8));
    proof {
        assert(v@ =~= sp_lit());
    }
    v
}

/// The bytes of `  `.
pub open spec fn sp2_lit() -> Seq<u8> {
    seq![(' ' as u8), (' ' as u8)]
}

/// Builds the bytes of `  `.
fn x_sp2_lit() -> (r: Vec<u8>)
    ensures
        r@ == sp2_lit(),
{
    let mut v: Vec<u8> = Vec::new();
    v.push((' ' as u8));
    v.push((' ' as u8));
    proof {
        assert(v@ =~= sp2_lit());
    }
    v
}

/// The bytes of `Arguments:`.
pub open spec fn args_hdr_lit() -> Seq<u8> {
    seq![('A' as u8), ('r' as u8), ('g' as u8), ('u' as u8), ('m' as u8), ('e' as u8), ('n' as u8), ('t' as u8), ('s' as u8), (':' as u8)]
}

/// Builds the bytes of `Arguments:`.
fn x_args_hdr_lit() -> (r: Vec<u8>)
    ensures
        r@ == args_hdr_lit(),
{
    let mut v: Vec<u8> = Vec::new();
    v.push(('A' as u8));
    v.push(('r' as u8));
    v.push(('g' as u8));
    v.push(('u' as u8));
    v.push(('m' as u8));
    v.push(('e' as u8));
    v.push(('n' as u8));
    v.push(('t' as u8));
    v.push(('s' as u8));
    v.push((':' as u8));
    proof {
        assert(v@ =~= args_hdr_lit());
    }
    v
}

/// The bytes of `Options:`.
pub open spec fn opts_hdr_lit() -> Seq<u8> {
    seq![('O' as u8), ('p' as u8), ('t' as u8), ('i' as u8), ('o' as u8), ('n' as u8), ('s' as u8), (':' as u8)]
}

/// Builds the bytes of `Options:`.
fn x_opts_hdr_lit() -> (r: Vec<u8>)
    ensures
        r@ == opts_hdr_lit(),
{
    let mut v: Vec<u8> = Vec::new();
    v.push(('O' as u8));
    v.push(('p' as u8));
    v.push(('t' as u8));
    v.push(('i' as u8));
    v.push(('o' as u8));
    v.push(('n' as u8));
    v.push(('s' as u8));
    v.push((':' as u8));
    proof {
        assert(v@ =~= opts_hdr_lit());
    }
    v
}

/// The bytes of `Commands:`.
pub open spec fn cmds_hdr_lit() -> Seq<u8> {
    seq![('C' as u8), ('o' as u8), ('m' as u8), ('m' as u8), ('a' as u8), ('n' as u8), ('d' as u8), ('s' as u8), (':' as u8)]
}

/// Builds the bytes of `Commands:`.
fn x_cmds_hdr_lit() -> (r: Vec<u8>)
    ensures
        r@ == cmds_hdr_lit(),
{
    let mut v: Vec<u8> = Vec::new();
    v.push(('C' as u8));
    v.push(('o' as u8));
    v.push(('m' as u8));
    v.push(('m' as u8));
    v.push(('a' as u8));
    v.push(('n' as u8));
    v.push(('d' as u8));
    v.push(('s' as u8));
    v.push((':' as u8));
    proof {
        assert(v@ =~= cmds_hdr_lit());
    }
    v
}

/// The bytes of `<`.
pub open spec fn lt_lit() -> Seq<u8> {
    seq![('<' as u8)]
}

/// Builds the bytes of `<`.
fn x_lt_lit() -> (r: Vec<u8>)
    ensures
        r@ == lt_lit(),
{
    let mut v: Vec<u8> = Vec::new();
    v.push(('<' as u8));
    proof {
        assert(v@ =~= lt_lit());
    }
    v
}

/// The bytes of `>`.
pub open spec fn gt_lit() -> Seq<u8> {
    seq![('>' as u8)]
}

/// Builds the bytes of `>`.
fn x_gt_lit() -> (r: Vec<u8>)
    ensures
        r@ == gt_lit(),
{
    let mut v: Vec<u8> = Vec::new();
    v.push(('>' as u8));
    proof {
        assert(v@ =~= gt_lit());
    }
    v
}

/// The bytes of `[`.
pub open spec fn lb_lit() -> Seq<u8> {
    seq![('[' as u8)]
}

/// Builds the bytes of `[`.
fn x_lb_lit() -> (r: Vec<u8>)
    ensures
        r@ == lb_lit(),
{
    let mut v: Vec<u8> = Vec::new();
    v.push(('[' as u8));
    proof {
        assert(v@ =~= lb_lit());
    }
    v
}

/// The bytes of `]`.
pub open spec fn rb_lit() -> Seq<u8> {
    seq![(']' as u8)]
}

/// Builds the bytes of `]`.
fn x_rb_lit() -> (r: Vec<u8>)
    ensures
        r@ == rb_lit(),
{
    let mut v: Vec<u8> = Vec::new();
    v.push((']' as u8));
    proof {
        assert(v@ =~= rb_lit());
    }
    v
}

/// The bytes of `...`.
pub open spec fn dots_lit() -> Seq<u8> {
    seq![('.' as u8), ('.' as u8), ('.' as u8)]
}

/// Builds the bytes of `...`.
fn x_dots_lit() -> (r: Vec<u8>)
    ensures
        r@ == dots_lit(),
{
    let mut v: Vec<u8> = Vec::new();
    v.push(('.' as u8));
    v.push(('.' as u8));
    v.push(('.' as u8));
    proof {
        assert(v@ =~= dots_lit());
    }
    v
}

/// The bytes of `-`.
pub open spec fn dash_lit() -> Seq<u8> {
    seq![('-' as u8)]
}

/// Builds the bytes of `-`.
fn x_dash_lit() -> (r: Vec<u8>)
    ensures
        r@ == dash_lit(),
{
    let mut v: Vec<u8> = Vec::new();
    v.push(('-' as u8));
    proof {
        assert(v@ =~= dash_lit());
    }
    v
}

/// The bytes of `--`.
pub open spec fn dd_lit() -> Seq<u8> {
    seq![('-' as u8), ('-' as u8)]
}

/// Builds the bytes of `--`.
fn x_dd_lit() -> (r: Vec<u8>)
    ensures
        r@ == dd_lit(),
{
    let mut v: Vec<u8> = Vec::new();
    v.push(('-' as u8));
    v.push(('-' as u8));
    proof {
        assert(v@ =~= dd_lit());
    }
    v
}

/// The bytes of `, `.
pub open spec fn comma_sp_lit() -> Seq<u8> {
    seq![(',' as u8), (' ' as u8)]
}

/// Builds the bytes of `, `.
fn x_comma_sp_lit() -> (r: Vec<u8>)
    ensures
        r@ == comma_sp_lit(),
{
    let mut v: Vec<u8> = Vec::new();
    v.push((',' as u8));
    v.push((' ' as u8));
    proof {
        assert(v@ =~= comma_sp_lit());
    }
    v
}

/// The bytes of `    `.
pub open spec fn sp4_lit() -> Seq<u8> {
    seq![(' ' as u8), (' ' as u8), (' ' as u8), (' ' as u8)]
}

/// Builds the bytes of `    `.
fn x_sp4_lit() -> (r: Vec<u8>)
    ensures
        r@ == sp4_lit(),
{
    let mut v: Vec<u8> = Vec::new();
    v.push((' ' as u8));
    v.push((' ' as u8));
    v.push((' ' as u8));
    v.push((' ' as u8));
    proof {
        assert(v@ =~= sp4_lit());
    }
    v
}

/// The bytes of `-h, --help`.
pub open spec fn help_entry_lit() -> Seq<u8> {
    seq![('-' as u8), ('h' as u8), (',' as u8), (' ' as u8), ('-' as u8), ('-' as u8), ('h' as u8), ('e' as u8), ('l' as u8), ('p' as u8)]
}

/// Builds the bytes of `-h, --help`.
fn x_help_entry_lit() -> (r: Vec<u8>)
    ensures
        r@ == help_entry_lit(),
{
    let mut v: Vec<u8> = Vec::new();
    v.push(('-' as u8));
    v.push(('h' as u8));
    v.push((',' as u8));
    v.push((' ' as u8));
    v.push(('-' as u8));
    v.push(('-' as u8));
    v.push(('h' as u8));
    v.push(('e' as u8));
    v.push(('l' as u8));
    v.push(('p' as u8));
    proof {
        assert(v@ =~= help_entry_lit());
    }
    v
}

/// The bytes of `Prints help`.
pub open spec fn help_doc_lit() -> Seq<u8> {
    seq![('P' as u8), ('r' as u8), ('i' as u8), ('n' as u8), ('t' as u8), ('s' as u8), (' ' as u8), ('h' as u8), ('e' as u8), ('l' as u8), ('p' as u8)]
}

/// Builds the bytes of `Prints help`.
fn x_help_doc_lit() -> (r: Vec<u8>)
    ensures
        r@ == help_doc_lit(),
{
    let mut v: Vec<u8> = Vec::new();
    v.push(('P' as u8));
    v.push(('r' as u8));
    v.push(('i' as u8));
    v.push(('n' as u8));
    v.push(('t' as u8));
    v.push(('s' as u8));
    v.push((' ' as u8));
    v.push(('h' as u8));
    v.push(('e' as u8));
    v.push(('l' as u8));
    v.push(('p' as u8));
    proof {
        assert(v@ =~= help_doc_lit());
    }
    v
}
/// The bytes of ` [-h]`.
pub open spec fn usage_h_lit() -> Seq<u8> {
    seq![(' ' as u8), ('[' as u8), ('-' as u8), ('h' as u8), (']' as u8)]
}

/// Builds the bytes of ` [-h]`.
fn x_usage_h_lit() -> (r: Vec<u8>)
    ensures
        r@ == usage_h_lit(),
{
    let mut v: Vec<u8> = Vec::new();
    v.push(' ' as u8);
    v.push('[' as u8);
    v.push('-' as u8);
    v.push('h' as u8);
    v.push(']' as u8);
    proof {
        assert(v@ =~= usage_h_lit());
    }
    v
}

/// A run of spaces padding an entry of width `n` up to the doc column; at
/// least one space.
pub open spec fn spaces(n: int) -> Seq<u8> {
    Seq::new(
        if n < 1 {
            1nat
        } else {
            n as nat
        },
        |i: int| (' ' as u8),
    )
}

/// The view of an optional doc reference.
pub open spec fn od_ref(o: Option<&Vec<u8>>) -> Option<Seq<u8>> {
    match o {
        Some(d) => Some(d@),
        None => None,
    }
}

/// One aligned row: two spaces, the entry, padding, the doc line.
pub open spec fn row(entry: Seq<u8>, doc: Option<Seq<u8>>) -> Seq<u8> {
    match doc {
        None => sp2_lit() + entry + nl_lit(),
        Some(d) => sp2_lit() + entry + spaces(21 - entry.len()) + d + nl_lit(),
    }
}

/// The dashed form a switch shows in the usage line: its short name when
/// it has one, else its long name.
pub open spec fn sw_base(sw: Switch) -> Seq<u8> {
    match sw.short {
        Some(c) => dash_lit() + seq![c],
        None => dd_lit() + sw.long@,
    }
}

/// The ` <value>` part of a value-taking switch.
pub open spec fn sw_val_part(sw: Switch) -> Seq<u8> {
    match sw.value {
        Some(vd) => sp_lit() + lt_lit() + vd.name@ + gt_lit(),
        None => Seq::empty(),
    }
}

/// A switch as the usage line shows it: bare when required, bracketed when
/// optional, bracketed with `...` when repeated.
pub open spec fn sw_usage_item(sw: Switch) -> Seq<u8> {
    if sw.arity == Arity::Required {
        sp_lit() + sw_base(sw) + sw_val_part(sw)
    } else if sw.arity == Arity::Repeated {
        sp_lit() + lb_lit() + sw_base(sw) + sw_val_part(sw) + rb_lit() + dots_lit()
    } else {
        sp_lit() + lb_lit() + sw_base(sw) + sw_val_part(sw) + rb_lit()
    }
}

/// A positional as the usage line shows it.
pub open spec fn pos_usage_item(p: Positional) -> Seq<u8> {
    if p.arity == Arity::Required {
        sp_lit() + lt_lit() + p.name@ + gt_lit()
    } else if p.arity == Arity::Repeated {
        sp_lit() + lt_lit() + p.name@ + gt_lit() + dots_lit()
    } else {
        sp_lit() + lb_lit() + lt_lit() + p.name@ + gt_lit() + rb_lit()
    }
}

/// The usage items of the first `k` positionals.
pub open spec fn usage_pos(ps: Seq<Positional>, k: int) -> Seq<u8>
    decreases k,
{
    if k <= 0 {
        Seq::empty()
    } else {
        usage_pos(ps, k - 1) + pos_usage_item(ps[k - 1])
    }
}

/// The usage items of the first `k` switches.
pub open spec fn usage_sws(sws: Seq<Switch>, k: int) -> Seq<u8>
    decreases k,
{
    if k <= 0 {
        Seq::empty()
    } else {
        usage_sws(sws, k - 1) + sw_usage_item(sws[k - 1])
    }
}

/// The usage items of every switch on the first `l` path levels.
pub open spec fn usage_sw_path(nodes: Seq<Cmd>, path: Seq<usize>, l: int) -> Seq<u8>
    decreases l,
{
    if l <= 0 {
        Seq::empty()
    } else {
        usage_sw_path(nodes, path, l - 1) + usage_sws(
            nodes[path[l - 1] as int].switches@,
            nodes[path[l - 1] as int].switches@.len() as int,
        )
    }
}

/// The whole `Usage:` line for the command at the end of `path`.
pub open spec fn usage_line(nodes: Seq<Cmd>, path: Seq<usize>) -> Seq<u8> {
    let c = nodes[path.last() as int];
    usage_lit() + usage_pos(c.positionals@, c.positionals@.len() as int) + usage_sw_path(
        nodes,
        path,
        path.len() as int,
    ) + usage_h_lit() + nl_lit()
}

/// A switch's entry in the `Options:` section.
pub open spec fn sw_entry(sw: Switch) -> Seq<u8> {
    (match sw.short {
        Some(c) => dash_lit() + seq![c] + comma_sp_lit(),
        None => sp4_lit(),
    }) + dd_lit() + sw.long@ + sw_val_part(sw)
}

/// A positional's entry in the `Arguments:` section.
pub open spec fn pos_entry(p: Positional) -> Seq<u8> {
    lt_lit() + p.name@ + gt_lit()
}

/// The rows of the first `k` positionals.
pub open spec fn pos_rows(ps: Seq<Positional>, k: int) -> Seq<u8>
    decreases k,
{
    if k <= 0 {
        Seq::empty()
    } else {
        pos_rows(ps, k - 1) + row(
            pos_entry(ps[k - 1]),
            match ps[k - 1].doc {
                Some(d) => Some(d@),
                None => None,
            },
        )
    }
}

/// The rows of the first `k` switches.
pub open spec fn sw_rows(sws: Seq<Switch>, k: int) -> Seq<u8>
    decreases k,
{
    if k <= 0 {
        Seq::empty()
    } else {
        sw_rows(sws, k - 1) + row(
            sw_entry(sws[k - 1]),
            match sws[k - 1].doc {
                Some(d) => Some(d@),
                None => None,
            },
        )
    }
}

/// The switch rows of the first `l` path levels.
pub open spec fn sw_rows_path(nodes: Seq<Cmd>, path: Seq<usize>, l: int) -> Seq<u8>
    decreases l,
{
    if l <= 0 {
        Seq::empty()
    } else {
        sw_rows_path(nodes, path, l - 1) + sw_rows(
            nodes[path[l - 1] as int].switches@,
            nodes[path[l - 1] as int].switches@.len() as int,
        )
    }
}

/// The built-in help entry's row.
pub open spec fn help_row() -> Seq<u8> {
    row(help_entry_lit(), Some(help_doc_lit()))
}

/// The rows of the first `k` child commands.
pub open spec fn cmd_rows(nodes: Seq<Cmd>, children: Seq<usize>, k: int) -> Seq<u8>
    decreases k,
{
    if k <= 0 {
        Seq::empty()
    } else {
        cmd_rows(nodes, children, k - 1) + row(
            nodes[children[k - 1] as int].name@,
            match nodes[children[k - 1] as int].doc {
                Some(d) => Some(d@),
                None => None,
            },
        )
    }
}

/// The whole help text for the command at the end of `path`.
pub open spec fn help_text(nodes: Seq<Cmd>, path: Seq<usize>) -> Seq<u8> {
    let c = nodes[path.last() as int];
    let u = usage_line(nodes, path);
    let a = if c.positionals@.len() > 0 {
        args_hdr_lit() + nl_lit() + pos_rows(c.positionals@, c.positionals@.len() as int)
            + nl_lit()
    } else {
        Seq::empty()
    };
    let o = opts_hdr_lit() + nl_lit() + sw_rows_path(nodes, path, path.len() as int)
        + help_row();
    let m = if c.children@.len() > 0 {
        nl_lit() + cmds_hdr_lit() + nl_lit() + cmd_rows(
            nodes,
            c.children@,
            c.children@.len() as int,
        )
    } else {
        Seq::empty()
    };
    u + a + o + m
}


/// Appends padding spaces for an entry of this length.
#[verifier::loop_isolation(false)]
fn push_spaces(out: &mut Vec<u8>, entry_len: usize)
    ensures
        final(out)@ == old(out)@ + spaces(21 - entry_len as int),
{
    let ghost o0 = out@;
    let pad: usize = if entry_len >= 21 {
        1
    } else {
        21 - entry_len
    };
    proof {
        assert(spaces(21 - entry_len as int).len() == pad);
    }
    let mut i: usize = 0;
    while i < pad
        invariant
            i <= pad,
            out@ == o0 + spaces(21 - entry_len as int).subrange(0, i as int),
        decreases pad - i,
    {
        out.push(' ' as u8);
        proof {
            assert(out@ =~= o0 + spaces(21 - entry_len as int).subrange(0, i + 1 as int));
        }
        i = i + 1;
    }
    proof {
        assert(spaces(21 - entry_len as int).subrange(
            0,
            spaces(21 - entry_len as int).len() as int,
        ) =~= spaces(21 - entry_len as int));
    }
}

/// Appends one aligned row.
fn push_row(out: &mut Vec<u8>, entry: &Vec<u8>, doc: Option<&Vec<u8>>)
    ensures
        final(out)@ == old(out)@ + row(entry@, od_ref(doc)),
{
    let ghost o0 = out@;
    push_all(out, &x_sp2_lit());
    push_all(out, entry);
    match doc {
        None => {
            push_all(out, &x_nl_lit());
            proof {
                assert(out@ =~= o0 + row(entry@, od_ref(doc)));
            }
        },
        Some(d) => {
            push_spaces(out, entry.len());
            push_all(out, d);
            push_all(out, &x_nl_lit());
            proof {
                assert(out@ =~= o0 + row(entry@, od_ref(doc)));
            }
        },
    }
}

/// Builds a switch's usage item.
fn x_sw_usage_item(sw: &Switch) -> (r: Vec<u8>)
    ensures
        r@ == sw_usage_item(*sw),
{
    let mut v = x_sp_lit();
    let required = sw.arity == Arity::Required;
    if !required {
        push_all(&mut v, &x_lb_lit());
    }
    match sw.short {
        Some(c) => {
            push_all(&mut v, &x_dash_lit());
            v.push(c);
        },
        None => {
            push_all(&mut v, &x_dd_lit());
            push_all(&mut v, &sw.long);
        },
    }
    proof {
        if sw.short is Some {
            assert(v@ =~= (if required {
                sp_lit()
            } else {
                sp_lit() + lb_lit()
            }) + sw_base(*sw));
        }
    }
    match &sw.value {
        Some(vd) => {
            push_all(&mut v, &x_sp_lit());
            push_all(&mut v, &x_lt_lit());
            push_all(&mut v, &vd.name);
            push_all(&mut v, &x_gt_lit());
        },
        None => {},
    }
    if sw.arity == Arity::Required {
        proof {
            assert(v@ =~= sw_usage_item(*sw));
        }
        v
    } else if sw.arity == Arity::Repeated {
        push_all(&mut v, &x_rb_lit());
        push_all(&mut v, &x_dots_lit());
        proof {
            assert(v@ =~= sw_usage_item(*sw));
        }
        v
    } else {
        push_all(&mut v, &x_rb_lit());
        proof {
            assert(v@ =~= sw_usage_item(*sw));
        }
        v
    }
}

/// Builds a positional's usage item.
fn x_pos_usage_item(p: &Positional) -> (r: Vec<u8>)
    ensures
        r@ == pos_usage_item(*p),
{
    let mut v = x_sp_lit();
    if p.arity == Arity::Optional {
        push_all(&mut v, &x_lb_lit());
    }
    push_all(&mut v, &x_lt_lit());
    push_all(&mut v, &p.name);
    push_all(&mut v, &x_gt_lit());
    if p.arity == Arity::Required {
        proof {
            assert(v@ =~= pos_usage_item(*p));
        }
        v
    } else if p.arity == Arity::Repeated {
        push_all(&mut v, &x_dots_lit());
        proof {
            assert(v@ =~= pos_usage_item(*p));
        }
        v
    } else {
        push_all(&mut v, &x_rb_lit());
        proof {
            assert(v@ =~= pos_usage_item(*p));
        }
        v
    }
}

/// Builds a switch's options entry.
fn x_sw_entry(sw: &Switch) -> (r: Vec<u8>)
    ensures
        r@ == sw_entry(*sw),
{
    let mut v: Vec<u8> = Vec::new();
    match sw.short {
        Some(c) => {
            push_all(&mut v, &x_dash_lit());
            v.push(c);
            push_all(&mut v, &x_comma_sp_lit());
            proof {
                assert(v@ =~= dash_lit() + seq![c] + comma_sp_lit());
            }
        },
        None => {
            push_all(&mut v, &x_sp4_lit());
        },
    }
    push_all(&mut v, &x_dd_lit());
    push_all(&mut v, &sw.long);
    match &sw.value {
        Some(vd) => {
            push_all(&mut v, &x_sp_lit());
            push_all(&mut v, &x_lt_lit());
            push_all(&mut v, &vd.name);
            push_all(&mut v, &x_gt_lit());
        },
        None => {},
    }
    proof {
        assert(v@ =~= sw_entry(*sw));
    }
    v
}

/// Builds a positional's arguments entry.
fn x_pos_entry(p: &Positional) -> (r: Vec<u8>)
    ensures
        r@ == pos_entry(*p),
{
    let mut v = x_lt_lit();
    push_all(&mut v, &p.name);
    push_all(&mut v, &x_gt_lit());
    proof {
        assert(v@ =~= pos_entry(*p));
    }
    v
}

/// Builds the `Usage:` line.
#[verifier::loop_isolation(false)]
fn x_usage_line(g: &Grammar, path: &Vec<usize>) -> (r: Vec<u8>)
    requires
        path@.len() >= 1,
        forall|k: int| 0 <= k < path@.len() ==> (#[trigger] path@[k]) < g.nodes().len(),
    ensures
        r@ == usage_line(g.nodes(), path@),
{
    let last = path[path.len() - 1];
    let c = g.node(last);
    let mut out = x_usage_lit();
    let mut k: usize = 0;
    while k < c.positionals.len()
        invariant
            k <= c.positionals@.len(),
            out@ == usage_lit() + usage_pos(c.positionals@, k as int),
        decreases c.positionals@.len() - k,
    {
        let item = x_pos_usage_item(&c.positionals[k]);
        push_all(&mut out, &item);
        proof {
            assert(out@ =~= usage_lit() + usage_pos(c.positionals@, k + 1));
        }
        k = k + 1;
    }
    let ghost ubase = usage_lit() + usage_pos(c.positionals@, c.positionals@.len() as int);
    let mut l: usize = 0;
    while l < path.len()
        invariant
            l <= path@.len(),
            out@ == ubase + usage_sw_path(g.nodes(), path@, l as int),
        decreases path@.len() - l,
    {
        let lc = g.node(path[l]);
        let ghost lbase = out@;
        let mut sk: usize = 0;
        while sk < lc.switches.len()
            invariant
                sk <= lc.switches@.len(),
                out@ == lbase + usage_sws(lc.switches@, sk as int),
            decreases lc.switches@.len() - sk,
        {
            let item = x_sw_usage_item(&lc.switches[sk]);
            push_all(&mut out, &item);
            proof {
                assert(out@ =~= lbase + usage_sws(lc.switches@, sk + 1));
            }
            sk = sk + 1;
        }
        proof {
            assert(out@ =~= ubase + usage_sw_path(g.nodes(), path@, l + 1));
        }
        l = l + 1;
    }
    push_all(&mut out, &x_usage_h_lit());
    push_all(&mut out, &x_nl_lit());
    proof {
        assert(out@ =~= usage_line(g.nodes(), path@));
    }
    out
}

/// Appends the rows of every positional of `c`.
#[verifier::loop_isolation(false)]
fn x_append_pos_rows(c: &Cmd, out: &mut Vec<u8>)
    ensures
        final(out)@ == old(out)@ + pos_rows(c.positionals@, c.positionals@.len() as int),
{
    let ghost abase = out@;
    let mut j: usize = 0;
    while j < c.positionals.len()
        invariant
            j <= c.positionals@.len(),
            out@ == abase + pos_rows(c.positionals@, j as int),
        decreases c.positionals@.len() - j,
    {
        let p = &c.positionals[j];
        let entry = x_pos_entry(p);
        let doc: Option<&Vec<u8>> = match &p.doc {
            Some(d) => Some(d),
            None => None,
        };
        push_row(out, &entry, doc);
        proof {
            assert(out@ =~= abase + pos_rows(c.positionals@, j + 1));
        }
        j = j + 1;
    }
}

/// Appends the rows of every switch visible along the path.
#[verifier::loop_isolation(false)]
fn x_append_sw_rows(g: &Grammar, path: &Vec<usize>, out: &mut Vec<u8>)
    requires
        forall|k: int| 0 <= k < path@.len() ==> (#[trigger] path@[k]) < g.nodes().len(),
    ensures
        final(out)@ == old(out)@ + sw_rows_path(g.nodes(), path@, path@.len() as int),
{
    let ghost obase = out@;
    let mut l2: usize = 0;
    while l2 < path.len()
        invariant
            l2 <= path@.len(),
            out@ == obase + sw_rows_path(g.nodes(), path@, l2 as int),
        decreases path@.len() - l2,
    {
        let lc = g.node(path[l2]);
        let ghost lbase2 = out@;
        let mut sk2: usize = 0;
        while sk2 < lc.switches.len()
            invariant
                sk2 <= lc.switches@.len(),
                out@ == lbase2 + sw_rows(lc.switches@, sk2 as int),
            decreases lc.switches@.len() - sk2,
        {
            let sw = &lc.switches[sk2];
            let entry = x_sw_entry(sw);
            let doc: Option<&Vec<u8>> = match &sw.doc {
                Some(d) => Some(d),
                None => None,
            };
            push_row(out, &entry, doc);
            proof {
                assert(out@ =~= lbase2 + sw_rows(lc.switches@, sk2 + 1));
            }
            sk2 = sk2 + 1;
        }
        proof {
            assert(out@ =~= obase + sw_rows_path(g.nodes(), path@, l2 + 1));
        }
        l2 = l2 + 1;
    }
}

/// Appends the rows of every child of `c`.
#[verifier::loop_isolation(false)]
fn x_append_cmd_rows(g: &Grammar, c: &Cmd, out: &mut Vec<u8>)
    requires
        forall|k: int| 0 <= k < c.children@.len() ==> (#[trigger] c.children@[k])
            < g.nodes().len(),
    ensures
        final(out)@ == old(out)@ + cmd_rows(g.nodes(), c.children@, c.children@.len() as int),
{
    let ghost cbase = out@;
    let mut ck: usize = 0;
    while ck < c.children.len()
        invariant
            ck <= c.children@.len(),
            out@ == cbase + cmd_rows(g.nodes(), c.children@, ck as int),
        decreases c.children@.len() - ck,
    {
        let child = g.node(c.children[ck]);
        let entry = copy_bytes(&child.name);
        let doc: Option<&Vec<u8>> = match &child.doc {
            Some(d) => Some(d),
            None => None,
        };
        push_row(out, &entry, doc);
        proof {
            assert(out@ =~= cbase + cmd_rows(g.nodes(), c.children@, ck + 1));
        }
        ck = ck + 1;
    }
}

/// Renders the full help text for the command at the end of `path`.
#[verifier::loop_isolation(false)]
#[verifier::rlimit(60)]
pub fn render_help(g: &Grammar, path: &Vec<usize>) -> (r: Vec<u8>)
    requires
        g.wf(),
        path@.len() >= 1,
        forall|k: int| 0 <= k < path@.len() ==> (#[trigger] path@[k]) < g.nodes().len(),
    ensures
        r@ == help_text(g.nodes(), path@),
{
    let last = path[path.len() - 1];
    let c = g.node(last);
    proof {
        assert(crate::grammar::node_ok(g.nodes(), last as int));
    }
    let mut out = x_usage_line(g, path);
    if c.positionals.len() > 0 {
        push_all(&mut out, &x_args_hdr_lit());
        push_all(&mut out, &x_nl_lit());
        x_append_pos_rows(c, &mut out);
        push_all(&mut out, &x_nl_lit());
    }
    push_all(&mut out, &x_opts_hdr_lit());
    push_all(&mut out, &x_nl_lit());
    x_append_sw_rows(g, path, &mut out);
    let he = x_help_entry_lit();
    let hd = x_help_doc_lit();
    push_row(&mut out, &he, Some(&hd));
    if c.children.len() > 0 {
        push_all(&mut out, &x_nl_lit());
        push_all(&mut out, &x_cmds_hdr_lit());
        push_all(&mut out, &x_nl_lit());
        x_append_cmd_rows(g, c, &mut out);
    }
    proof {
        assert(out@ =~= help_text(g.nodes(), path@));
    }
    out
}

} // verus!
