//! Laws the matcher obeys, stated and proved over the specification
//! interpreter that [`crate::matcher::parse`] is proved to implement.

use vstd::prelude::*;
use crate::error::ErrS;
use crate::grammar::{grammar_ok, help_name, long_ok, node_ok, Cmd};
use crate::matcher::{
    apply_switch, find_child, find_long, find_long_in, find_short, find_short_in, finalize,
    first_missing, first_unfilled, init_state, parse_spec, pos_count, run_from, route_bare,
    occs_has, OccS, OutcomeS, StateS,
};
use crate::token::{classify, Arg, ArgS, TokenS};

verus! {

/// If some switch from `k` on has this long name, the scan finds one.
proof fn lemma_find_long_in_hits(sws: Seq<crate::grammar::Switch>, n: Seq<u8>, j: int, k: int)
    requires
        0 <= k <= j < sws.len(),
        sws[j].long@ == n,
    ensures
        find_long_in(sws, n, k) is Some,
    decreases j - k,
{
    if sws[k].long@ != n {
        lemma_find_long_in_hits(sws, n, j, k + 1);
    }
}

/// If some switch from `k` on has this short name, the scan finds one.
proof fn lemma_find_short_in_hits(sws: Seq<crate::grammar::Switch>, b: u8, j: int, k: int)
    requires
        0 <= k <= j < sws.len(),
        sws[j].short == Some(b),
    ensures
        find_short_in(sws, b, k) is Some,
    decreases j - k,
{
    if sws[k].short != Some(b) {
        lemma_find_short_in_hits(sws, b, j, k + 1);
    }
}

/// Every missing-item scan reports `MissingRequired`.
proof fn lemma_first_missing_kinds(nodes: Seq<Cmd>, st: StateS, l: int)
    ensures
        match first_missing(nodes, st, l) {
            Some(e) => e is MissingRequired,
            None => true,
        },
    decreases st.path.len() - l,
{
    if 0 <= l < st.path.len() {
        lemma_first_missing_kinds(nodes, st, l + 1);
    }
}

/// Finalization either succeeds or reports something required as missing;
/// it never reports an unknown switch or an unexpected argument.
pub proof fn lemma_finalize_kinds(nodes: Seq<Cmd>, st: StateS)
    ensures
        match finalize(nodes, st) {
            Ok(_) => true,
            Err(e) => e is MissingRequired,
        },
    decreases nodes.len() - st.path.last(),
{
    let cur = st.path.last() as int;
    let c = nodes[cur];
    if c.children@.len() > 0 {
        match c.default_child {
            Some(d) => {
                if cur < d < nodes.len() {
                    lemma_finalize_kinds(nodes, StateS { path: st.path.push(d), ..st });
                }
            },
            None => {},
        }
    } else {
        lemma_first_missing_kinds(nodes, st, 0);
    }
}

/// A textual token that neither is empty nor starts with a dash is bare.
proof fn lemma_classify_bare(a: ArgS)
    requires
        a.is_text,
        a.bytes.len() > 0,
        a.bytes[0] != ('-' as u8),
    ensures
        classify(a, false) == TokenS::Bare,
{
    assert(a.bytes != seq![('-' as u8), ('-' as u8)]) by {
        if a.bytes == seq![('-' as u8), ('-' as u8)] {
            assert(a.bytes[0] == ('-' as u8));
        }
    }
}

/// A textual token of the form `--name`, with no `=` in the name, is the
/// long switch `name` without an inline value.
proof fn lemma_classify_long(a: ArgS, n: Seq<u8>)
    requires
        a.is_text,
        a.bytes == seq![('-' as u8), ('-' as u8)] + n,
        n.len() > 0,
        !n.contains(('=' as u8)),
    ensures
        classify(a, false) == (TokenS::Long { name: n, inline: None }),
{
    let v = a.bytes;
    assert(v.len() == 2 + n.len());
    assert(v != seq![('-' as u8), ('-' as u8)]) by {
        assert(v.len() != 2);
    }
    assert(v[0] == ('-' as u8) && v[1] == ('-' as u8));
    let rest = v.subrange(2, v.len() as int);
    assert(rest =~= n);
    assert forall|j: int| 0 <= j < rest.len() implies rest[j] != ('=' as u8) by {
        assert(rest[j] == n[j]);
        if n[j] == ('=' as u8) {
            assert(n.contains(('=' as u8)));
        }
    }
    crate::token::lemma_first_eq_free(rest);
}

/// Routing a bare token never reads or writes the switch occurrences:
/// swapping them in commutes with the routing, and a successful routing
/// leaves the occurrences, the separator flag and the path prefix alone.
proof fn lemma_route_bare_occs(nodes: Seq<Cmd>, st: StateS, a: ArgS, o2: Seq<OccS>)
    requires
        st.path.len() >= 1,
    ensures
        match route_bare(nodes, st, a) {
            Ok(r) => {
                &&& route_bare(nodes, StateS { occs: o2, ..st }, a) == Ok::<_, ErrS>(
                    StateS { occs: o2, ..r },
                )
                &&& r.occs == st.occs
                &&& r.after_sep == st.after_sep
                &&& r.path.len() >= st.path.len()
                &&& forall|k: int| 0 <= k < st.path.len() ==> r.path[k] == st.path[k]
            },
            Err(e) => route_bare(nodes, StateS { occs: o2, ..st }, a) == Err::<StateS, _>(e),
        },
    decreases nodes.len() - st.path.last(),
{
    let st2 = StateS { occs: o2, ..st };
    let cur = st.path.last() as int;
    let c = nodes[cur];
    let level = st.path.len() - 1;
    match first_unfilled(c.positionals@, st.poss, level as int, 0) {
        Some(j) => {
            match crate::value::coerce_spec(c.positionals@[j].tag, a) {
                Some(v) => {
                    assert(route_bare(nodes, st2, a) matches Ok(r2) && (route_bare(
                        nodes,
                        st,
                        a,
                    ) matches Ok(r) && r2 =~= StateS { occs: o2, ..r }));
                },
                None => {},
            }
        },
        None => {
            match find_child(nodes, c.children@, a.bytes, 0) {
                Some(k) => {
                    assert(route_bare(nodes, st2, a) matches Ok(r2) && (route_bare(
                        nodes,
                        st,
                        a,
                    ) matches Ok(r) && r2 =~= StateS { occs: o2, ..r }));
                },
                None => {
                    match c.default_child {
                        Some(d) => {
                            if cur < d < nodes.len() {
                                let stp = StateS { path: st.path.push(d), ..st };
                                lemma_route_bare_occs(nodes, stp, a, o2);
                                assert(StateS { path: st2.path.push(d), ..st2 } =~= StateS {
                                    occs: o2,
                                    ..stp
                                });
                            }
                        },
                        None => {},
                    }
                },
            }
        },
    }
}

/// Order independence of inherited switches: a boolean switch declared at
/// the root and any bare token — a subcommand name or a positional value —
/// parse to the same outcome in either order: `[--s, w]` and `[w, --s]`
/// are the same command line, for every grammar.
pub proof fn lemma_switch_order_independent(
    nodes: Seq<Cmd>,
    sw_arg: Arg,
    cmd_arg: Arg,
    n: Seq<u8>,
    j: int,
)
    requires
        sw_arg@.is_text,
        sw_arg@.bytes == seq![('-' as u8), ('-' as u8)] + n,
        classify(cmd_arg@, false) == TokenS::Bare,
        n.len() > 0,
        !n.contains(('=' as u8)),
        n != help_name(),
        0 <= j < nodes[0].switches@.len(),
        find_long_in(nodes[0].switches@, n, 0) == Some(j),
        nodes[0].switches@[j].value is None,
    ensures
        parse_spec(nodes, seq![sw_arg, cmd_arg]) == parse_spec(nodes, seq![cmd_arg, sw_arg]),
{
    let st0 = init_state();
    let args_a = seq![sw_arg, cmd_arg];
    let args_b = seq![cmd_arg, sw_arg];
    let sw = nodes[0].switches@[j];
    lemma_classify_long(sw_arg@, n);
    let occ = OccS { long: sw.long@, value: None };

    // the switch applied at the root, first in order a
    assert(st0.path[0] == 0usize);
    assert(find_long(nodes, st0.path, n, 0) == Some((0int, j)));
    assert(!occs_has(st0.occs, sw.long@));
    let st1 = StateS { occs: st0.occs.push(occ), ..st0 };
    assert(apply_switch(nodes, st0, 0, j, None, args_a, 0, sw_arg@.bytes) == Ok::<
        _,
        ErrS,
    >((st1, false)));
    assert(run_from(nodes, st0, args_a, 0) == run_from(nodes, st1, args_a, 1));
    assert(st1 =~= StateS { occs: st0.occs.push(occ), ..st0 });

    // the bare token routes the same way whatever occurrences are held
    lemma_route_bare_occs(nodes, st0, cmd_arg@, st0.occs.push(occ));
    match route_bare(nodes, st0, cmd_arg@) {
        Ok(r) => {
            // order a finishes by routing the bare token
            let st2 = StateS { occs: st0.occs.push(occ), ..r };
            assert(route_bare(nodes, st1, cmd_arg@) == Ok::<_, ErrS>(st2));
            assert(run_from(nodes, st1, args_a, 1) == run_from(nodes, st2, args_a, 2));
            assert(run_from(nodes, st2, args_a, 2) == finalize(nodes, st2));

            // order b routes first, then applies the switch at level 0
            assert(run_from(nodes, st0, args_b, 0) == run_from(nodes, r, args_b, 1));
            assert(r.path[0] == 0usize);
            assert(r.path.len() >= 1);
            assert(find_long_in(nodes[r.path[0] as int].switches@, n, 0) == Some(j));
            assert(find_long(nodes, r.path, n, 0) == Some((0int, j)));
            assert(r.occs == st0.occs);
            assert(!occs_has(r.occs, sw.long@));
            let st2b = StateS { occs: r.occs.push(occ), ..r };
            assert(apply_switch(nodes, r, 0, j, None, args_b, 1, sw_arg@.bytes) == Ok::<
                _,
                ErrS,
            >((st2b, false)));
            assert(run_from(nodes, r, args_b, 1) == run_from(nodes, st2b, args_b, 2));
            assert(run_from(nodes, st2b, args_b, 2) == finalize(nodes, st2b));
            assert(st2 =~= st2b);
        },
        Err(e) => {
            // both orders stop on the very same routing error
            assert(route_bare(nodes, st1, cmd_arg@) == Err::<StateS, _>(e));
            assert(run_from(nodes, st1, args_a, 1) == Err::<OutcomeS, _>(e));
            assert(run_from(nodes, st0, args_b, 0) == Err::<OutcomeS, _>(e));
        },
    }
}

/// Order independence of inherited switches, with a value: a root switch
/// given as `--s=value` and any bare token parse to the same outcome in
/// either order, for every grammar — except that when the value is
/// malformed and the bare token is itself in error, both orders fail,
/// though each reports the error it met first.
pub proof fn lemma_valued_switch_order_independent(
    nodes: Seq<Cmd>,
    sw_arg: Arg,
    cmd_arg: Arg,
    n: Seq<u8>,
    v: Seq<u8>,
    j: int,
)
    requires
        sw_arg@.is_text,
        sw_arg@.bytes == seq![('-' as u8), ('-' as u8)] + n + seq![('=' as u8)] + v,
        classify(cmd_arg@, false) == TokenS::Bare,
        n.len() > 0,
        !n.contains(('=' as u8)),
        n != help_name(),
        0 <= j < nodes[0].switches@.len(),
        find_long_in(nodes[0].switches@, n, 0) == Some(j),
        nodes[0].switches@[j].value is Some,
    ensures
        parse_spec(nodes, seq![sw_arg, cmd_arg]) == parse_spec(nodes, seq![cmd_arg, sw_arg]) || (
        parse_spec(nodes, seq![sw_arg, cmd_arg]) is Err && parse_spec(
            nodes,
            seq![cmd_arg, sw_arg],
        ) is Err),
{
    let st0 = init_state();
    let args_a = seq![sw_arg, cmd_arg];
    let args_b = seq![cmd_arg, sw_arg];
    let sw = nodes[0].switches@[j];
    let vd = sw.value->Some_0;

    // the switch token classifies as `--n` with inline value `v`
    let w = sw_arg@.bytes;
    assert(w.len() == 3 + n.len() + v.len());
    assert(w != seq![('-' as u8), ('-' as u8)]) by {
        assert(w.len() != 2);
    }
    assert(w[0] == ('-' as u8) && w[1] == ('-' as u8));
    let rest = w.subrange(2, w.len() as int);
    assert(rest =~= n + seq![('=' as u8)] + v);
    assert forall|x: int| 0 <= x < n.len() implies rest[x] != ('=' as u8) by {
        assert(rest[x] == n[x]);
        if n[x] == ('=' as u8) {
            assert(n.contains(('=' as u8)));
        }
    }
    crate::token::lemma_first_eq_stops(rest, n.len() as int);
    assert(rest[n.len() as int] == ('=' as u8));
    assert(rest.subrange(0, n.len() as int) =~= n);
    assert(rest.subrange(n.len() as int + 1, rest.len() as int) =~= v);
    assert(classify(sw_arg@, false) == (TokenS::Long { name: n, inline: Some(v) }));

    let iv = ArgS { is_text: true, bytes: v };
    assert(st0.path[0] == 0usize);
    assert(find_long(nodes, st0.path, n, 0) == Some((0int, j)));
    assert(!occs_has(st0.occs, sw.long@));
    match crate::value::coerce_spec(vd.tag, iv) {
        Some(val) => {
            let occ = OccS { long: sw.long@, value: Some(val) };
            let st1 = StateS { occs: st0.occs.push(occ), ..st0 };
            assert(apply_switch(nodes, st0, 0, j, Some(v), args_a, 0, w) == Ok::<_, ErrS>(
                (st1, false),
            ));
            assert(run_from(nodes, st0, args_a, 0) == run_from(nodes, st1, args_a, 1));
            lemma_route_bare_occs(nodes, st0, cmd_arg@, st0.occs.push(occ));
            match route_bare(nodes, st0, cmd_arg@) {
                Ok(r) => {
                    let st2 = StateS { occs: st0.occs.push(occ), ..r };
                    assert(route_bare(nodes, st1, cmd_arg@) == Ok::<_, ErrS>(st2));
                    assert(run_from(nodes, st1, args_a, 1) == run_from(
                        nodes,
                        st2,
                        args_a,
                        2,
                    ));
                    assert(run_from(nodes, st2, args_a, 2) == finalize(nodes, st2));

                    assert(run_from(nodes, st0, args_b, 0) == run_from(nodes, r, args_b, 1));
                    assert(r.path[0] == 0usize && r.path.len() >= 1);
                    assert(find_long(nodes, r.path, n, 0) == Some((0int, j)));
                    assert(r.occs == st0.occs);
                    assert(!occs_has(r.occs, sw.long@));
                    let st2b = StateS { occs: r.occs.push(occ), ..r };
                    assert(apply_switch(nodes, r, 0, j, Some(v), args_b, 1, w) == Ok::<
                        _,
                        ErrS,
                    >((st2b, false)));
                    assert(run_from(nodes, r, args_b, 1) == run_from(nodes, st2b, args_b, 2));
                    assert(run_from(nodes, st2b, args_b, 2) == finalize(nodes, st2b));
                    assert(st2 =~= st2b);
                },
                Err(e) => {
                    assert(route_bare(nodes, st1, cmd_arg@) == Err::<StateS, _>(e));
                    assert(run_from(nodes, st1, args_a, 1) == Err::<OutcomeS, _>(e));
                    assert(run_from(nodes, st0, args_b, 0) == Err::<OutcomeS, _>(e));
                },
            }
        },
        None => {
            // the value never converts, in either order
            let e = ErrS::TypeConversionFailure { name: sw.long@, raw: v, tag: vd.tag };
            assert(apply_switch(nodes, st0, 0, j, Some(v), args_a, 0, w) == Err::<
                (StateS, bool),
                _,
            >(e));
            assert(run_from(nodes, st0, args_a, 0) == Err::<OutcomeS, _>(e));
            lemma_route_bare_occs(nodes, st0, cmd_arg@, st0.occs);
            match route_bare(nodes, st0, cmd_arg@) {
                Ok(r) => {
                    assert(run_from(nodes, st0, args_b, 0) == run_from(nodes, r, args_b, 1));
                    assert(r.path[0] == 0usize && r.path.len() >= 1);
                    assert(find_long(nodes, r.path, n, 0) == Some((0int, j)));
                    assert(apply_switch(nodes, r, 0, j, Some(v), args_b, 1, w) == Err::<
                        (StateS, bool),
                        _,
                    >(e));
                    assert(run_from(nodes, r, args_b, 1) == Err::<OutcomeS, _>(e));
                },
                Err(e2) => {
                    // both orders fail: the first order on the value, the
                    // second on the bare token
                    assert(run_from(nodes, st0, args_b, 0) == Err::<OutcomeS, _>(e2));
                },
            }
        },
    }
}

/// Renderer and matcher agree on switches: a long switch the usage line
/// lists for the root is never an unknown switch and never an unexpected
/// argument when parsed back.
pub proof fn lemma_usage_long_switch_parses(nodes: Seq<Cmd>, a: Arg, n: Seq<u8>, j: int)
    requires
        grammar_ok(nodes),
        a@.is_text,
        a@.bytes == seq![('-' as u8), ('-' as u8)] + n,
        0 <= j < nodes[0].switches@.len(),
        nodes[0].switches@[j].long@ == n,
    ensures
        !(parse_spec(nodes, seq![a]) matches Err(e) && (e is UnknownSwitch
            || e is UnexpectedArgument)),
{
    let st0 = init_state();
    let args = seq![a];
    assert(node_ok(nodes, 0));
    assert(long_ok(n));
    lemma_classify_long(a@, n);
    lemma_find_long_in_hits(nodes[0].switches@, n, j, 0);
    assert(st0.path[0] == 0usize);
    let j2 = find_long_in(nodes[0].switches@, n, 0)->Some_0;
    assert(find_long(nodes, st0.path, n, 0) == Some((0int, j2)));
    let sw = nodes[0].switches@[j2];
    assert(!occs_has(st0.occs, sw.long@));
    match apply_switch(nodes, st0, 0, j2, None, args, 0, a@.bytes) {
        Ok((st1, took)) => {
            assert(run_from(nodes, st0, args, 0) == run_from(
                nodes,
                st1,
                args,
                if took {
                    2
                } else {
                    1
                },
            ));
            lemma_finalize_kinds(nodes, st1);
        },
        Err(e) => {
            assert(e is MissingValue);
        },
    }
}

/// Renderer and matcher agree on short switches: a short switch the usage
/// line lists for the root is never an unknown switch and never an
/// unexpected argument when parsed back.
pub proof fn lemma_usage_short_switch_parses(nodes: Seq<Cmd>, a: Arg, b: u8, j: int)
    requires
        grammar_ok(nodes),
        a@.is_text,
        a@.bytes == seq![('-' as u8), b],
        0 <= j < nodes[0].switches@.len(),
        nodes[0].switches@[j].short == Some(b),
    ensures
        !(parse_spec(nodes, seq![a]) matches Err(e) && (e is UnknownSwitch
            || e is UnexpectedArgument)),
{
    let st0 = init_state();
    let args = seq![a];
    assert(node_ok(nodes, 0));
    assert(nodes[0].switches@[j].short != Some(('h' as u8)));
    let v = a@.bytes;
    if b == ('-' as u8) {
        assert(v =~= seq![('-' as u8), ('-' as u8)]);
        assert(classify(a@, false) == TokenS::Separator);
        let st1 = StateS { after_sep: true, ..st0 };
        assert(run_from(nodes, st0, args, 0) == run_from(nodes, st1, args, 1));
        lemma_finalize_kinds(nodes, st1);
    } else {
        assert(v != seq![('-' as u8), ('-' as u8)]) by {
            assert(v[1] == b);
        }
        assert(v.len() == 2 && v[0] == ('-' as u8));
        let body = v.subrange(1, v.len() as int);
        assert(classify(a@, false) == (TokenS::Short { body }));
        assert(body.len() == 1 && body[0] == b);
        assert(b != ('h' as u8));
        assert(body != seq![('h' as u8)]) by {
            assert(body[0] == b);
        }
        lemma_find_short_in_hits(nodes[0].switches@, b, j, 0);
        assert(st0.path[0] == 0usize);
        let j2 = find_short_in(nodes[0].switches@, b, 0)->Some_0;
        assert(find_short(nodes, st0.path, b, 0) == Some((0int, j2)));
        let sw = nodes[0].switches@[j2];
        assert(!occs_has(st0.occs, sw.long@));
        match apply_switch(nodes, st0, 0, j2, None, args, 0, a@.bytes) {
            Ok((st1, took)) => {
                assert(run_from(nodes, st0, args, 0) == run_from(
                    nodes,
                    st1,
                    args,
                    if took {
                        2
                    } else {
                        1
                    },
                ));
                lemma_finalize_kinds(nodes, st1);
            },
            Err(e) => {
                assert(e is MissingValue);
            },
        }
    }
}

/// Renderer and matcher agree on positionals: when the root declares a
/// positional, its usage placeholder — indeed any bare token — is never an
/// unexpected argument when parsed back.
pub proof fn lemma_usage_positional_parses(nodes: Seq<Cmd>, a: Arg)
    requires
        grammar_ok(nodes),
        a@.is_text,
        a@.bytes.len() > 0,
        a@.bytes[0] == ('<' as u8),
        nodes[0].positionals@.len() > 0,
    ensures
        !(parse_spec(nodes, seq![a]) matches Err(e) && (e is UnknownSwitch
            || e is UnexpectedArgument)),
{
    let st0 = init_state();
    let args = seq![a];
    lemma_classify_bare(a@);
    assert(st0.path[0] == 0usize);
    let ps = nodes[0].positionals@;
    assert(pos_count(st0.poss, 0, 0) == 0);
    assert(first_unfilled(ps, st0.poss, 0, 0) == Some(0int));
    match route_bare(nodes, st0, a@) {
        Ok(st1) => {
            assert(run_from(nodes, st0, args, 0) == run_from(nodes, st1, args, 1));
            lemma_finalize_kinds(nodes, st1);
        },
        Err(e) => {
            assert(e is TypeConversionFailure);
        },
    }
}

} // verus!
