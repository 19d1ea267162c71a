//! The matcher: walking an argument list against a grammar.
//!
//! The whole algorithm is written twice: once as specification functions
//! over sequences ([`run_from`] and its helpers), and once as executable
//! code ([`parse`]) proved to return exactly what the specification says.
//!
//! State during one parse: the resolved command path (indices into the
//! grammar, root first), the switch occurrences collected so far (in token
//! order, for the whole path, since switches are inherited), the positional
//! values collected so far (tagged with the path level that consumed them),
//! and whether the `--` separator has been seen.

use vstd::prelude::*;
use crate::bytes::{bytes_eq, copy_bytes};
use crate::error::{ErrS, ParseError};
use crate::grammar::{names_of, node_ok, help_name, Arity, Cmd, Grammar, Positional, Switch};
use crate::token::{classify, Arg, ArgS, Token, TokenS};
use crate::value::{coerce, coerce_spec, opt_value_view, Value, ValueS};

verus! {

/// One recorded switch occurrence: the long name of the switch, and its
/// coerced value (`None` for a boolean switch).
#[derive(Debug)]
pub struct Occ {
    pub long: Vec<u8>,
    pub value: Option<Value>,
}

/// The specification-level twin of [`Occ`].
pub ghost struct OccS {
    pub long: Seq<u8>,
    pub value: Option<ValueS>,
}

impl View for Occ {
    type V = OccS;

    open spec fn view(&self) -> OccS {
        OccS { long: self.long@, value: opt_value_view(self.value) }
    }
}

/// One consumed positional value: which path level and slot it filled,
/// the positional's name, and the coerced value.
#[derive(Debug)]
pub struct PosOcc {
    pub level: usize,
    pub slot: usize,
    pub name: Vec<u8>,
    pub value: Value,
}

/// The specification-level twin of [`PosOcc`].
pub ghost struct PosOccS {
    pub level: int,
    pub slot: int,
    pub name: Seq<u8>,
    pub value: ValueS,
}

impl View for PosOcc {
    type V = PosOccS;

    open spec fn view(&self) -> PosOccS {
        PosOccS {
            level: self.level as int,
            slot: self.slot as int,
            name: self.name@,
            value: self.value@,
        }
    }
}

/// The views of a sequence of occurrences.
pub open spec fn occs_view(occs: Seq<Occ>) -> Seq<OccS> {
    occs.map_values(|o: Occ| o@)
}

/// The views of a sequence of positional occurrences.
pub open spec fn poss_view(poss: Seq<PosOcc>) -> Seq<PosOccS> {
    poss.map_values(|p: PosOcc| p@)
}

/// A finished parse: the resolved command path (grammar indices, root
/// first), every switch occurrence along it in token order, and every
/// positional value, tagged with the level that consumed it.
#[derive(Debug)]
pub struct ParseOutcome {
    pub path: Vec<usize>,
    pub occs: Vec<Occ>,
    pub poss: Vec<PosOcc>,
}

/// The specification-level twin of [`ParseOutcome`].
#[verifier::ext_equal]
pub ghost struct OutcomeS {
    pub path: Seq<usize>,
    pub occs: Seq<OccS>,
    pub poss: Seq<PosOccS>,
}

impl View for ParseOutcome {
    type V = OutcomeS;

    open spec fn view(&self) -> OutcomeS {
        OutcomeS { path: self.path@, occs: occs_view(self.occs@), poss: poss_view(self.poss@) }
    }
}

/// How many occurrences of this long name the outcome holds.
pub open spec fn count_occs(occs: Seq<OccS>, long: Seq<u8>) -> int
    decreases occs.len(),
{
    if occs.len() == 0 {
        0
    } else {
        count_occs(occs.drop_last(), long) + if occs.last().long == long {
            1int
        } else {
            0int
        }
    }
}

/// The values this positional name collected, in order.
pub open spec fn pos_values(poss: Seq<PosOccS>, name: Seq<u8>) -> Seq<ValueS>
    decreases poss.len(),
{
    if poss.len() == 0 {
        Seq::empty()
    } else {
        pos_values(poss.drop_last(), name) + if poss.last().name == name {
            seq![poss.last().value]
        } else {
            Seq::empty()
        }
    }
}

/// The views of a sequence of values.
pub open spec fn values_view(vs: Seq<Value>) -> Seq<ValueS> {
    vs.map_values(|v: Value| v@)
}

impl ParseOutcome {
    /// How many times the switch with this long name occurred.
    #[verifier::loop_isolation(false)]
    pub fn switch_count(&self, long: &Vec<u8>) -> (r: usize)
        ensures
            r as int == count_occs(self@.occs, long@),
    {
        let ghost os = occs_view(self.occs@);
        let mut cnt: usize = 0;
        let mut k: usize = 0;
        while k < self.occs.len()
            invariant
                k <= self.occs@.len(),
                cnt <= k,
                cnt as int == count_occs(os.subrange(0, k as int), long@),
            decreases self.occs@.len() - k,
        {
            proof {
                assert(os.subrange(0, k + 1 as int).drop_last() =~= os.subrange(0, k as int));
                assert(os.subrange(0, k + 1 as int).last() == os[k as int]);
            }
            if bytes_eq(&self.occs[k].long, long) {
                cnt = cnt + 1;
            }
            k = k + 1;
        }
        proof {
            assert(os.subrange(0, os.len() as int) =~= os);
        }
        cnt
    }

    /// The name of the command resolved at this path level; level 0 is the
    /// root, the last level the selected (sub)command.
    pub fn command_name<'a>(&self, g: &'a Grammar, level: usize) -> (r: &'a Vec<u8>)
        requires
            level < self@.path.len(),
            self@.path[level as int] < g.nodes().len(),
        ensures
            r@ == g.nodes()[self@.path[level as int] as int].name@,
    {
        &g.node(self.path[level]).name
    }

    /// The values the positional with this name collected, in order.
    #[verifier::loop_isolation(false)]
    pub fn positional_values(&self, name: &Vec<u8>) -> (r: Vec<Value>)
        ensures
            values_view(r@) == pos_values(self@.poss, name@),
    {
        let ghost ps = poss_view(self.poss@);
        let mut out: Vec<Value> = Vec::new();
        let mut k: usize = 0;
        while k < self.poss.len()
            invariant
                k <= self.poss@.len(),
                values_view(out@) == pos_values(ps.subrange(0, k as int), name@),
            decreases self.poss@.len() - k,
        {
            proof {
                assert(ps.subrange(0, k + 1 as int).drop_last() =~= ps.subrange(0, k as int));
                assert(ps.subrange(0, k + 1 as int).last() == ps[k as int]);
            }
            let ghost before = values_view(out@);
            let p = &self.poss[k];
            if bytes_eq(&p.name, name) {
                let v = clone_value(&p.value);
                out.push(v);
                proof {
                    assert(values_view(out@) =~= before + seq![ps[k as int].value]);
                }
            } else {
                proof {
                    assert(values_view(out@) =~= before + Seq::<ValueS>::empty());
                }
            }
            k = k + 1;
        }
        proof {
            assert(ps.subrange(0, ps.len() as int) =~= ps);
        }
        out
    }
}

/// A fresh value with the same view.
fn clone_value(v: &Value) -> (r: Value)
    ensures
        r@ == v@,
{
    match v {
        Value::Bytes(b) => Value::Bytes(copy_bytes(b)),
        Value::Int(n) => Value::Int(*n),
        Value::Present => Value::Present,
    }
}

/// The matcher's working state.
#[verifier::ext_equal]
pub ghost struct StateS {
    pub path: Seq<usize>,
    pub occs: Seq<OccS>,
    pub poss: Seq<PosOccS>,
    pub after_sep: bool,
}

/// The state a parse starts in: at the root, nothing collected.
pub open spec fn init_state() -> StateS {
    StateS { path: seq![0usize], occs: Seq::empty(), poss: Seq::empty(), after_sep: false }
}

/// Has a switch with this long name already occurred?
pub open spec fn occs_has(occs: Seq<OccS>, long: Seq<u8>) -> bool {
    exists|k: int| 0 <= k < occs.len() && occs[k].long == long
}

/// The index of the first switch with this long name, scanning from `j`.
pub open spec fn find_long_in(sws: Seq<Switch>, name: Seq<u8>, j: int) -> Option<int>
    decreases sws.len() - j,
{
    if j < 0 || j >= sws.len() {
        None
    } else if sws[j].long@ == name {
        Some(j)
    } else {
        find_long_in(sws, name, j + 1)
    }
}

/// The first (level, switch index) whose long name matches, scanning the
/// path from the root down.
pub open spec fn find_long(nodes: Seq<Cmd>, path: Seq<usize>, name: Seq<u8>, l: int) -> Option<
    (int, int),
>
    decreases path.len() - l,
{
    if l < 0 || l >= path.len() {
        None
    } else {
        match find_long_in(nodes[path[l] as int].switches@, name, 0) {
            Some(j) => Some((l, j)),
            None => find_long(nodes, path, name, l + 1),
        }
    }
}

/// The index of the first switch with this short name, scanning from `j`.
pub open spec fn find_short_in(sws: Seq<Switch>, b: u8, j: int) -> Option<int>
    decreases sws.len() - j,
{
    if j < 0 || j >= sws.len() {
        None
    } else if sws[j].short == Some(b) {
        Some(j)
    } else {
        find_short_in(sws, b, j + 1)
    }
}

/// The first (level, switch index) whose short name matches.
pub open spec fn find_short(nodes: Seq<Cmd>, path: Seq<usize>, b: u8, l: int) -> Option<
    (int, int),
>
    decreases path.len() - l,
{
    if l < 0 || l >= path.len() {
        None
    } else {
        match find_short_in(nodes[path[l] as int].switches@, b, 0) {
            Some(j) => Some((l, j)),
            None => find_short(nodes, path, b, l + 1),
        }
    }
}

/// How many values the slot `(level, slot)` has received.
pub open spec fn pos_count(poss: Seq<PosOccS>, level: int, slot: int) -> int
    decreases poss.len(),
{
    if poss.len() == 0 {
        0
    } else {
        pos_count(poss.drop_last(), level, slot) + if poss.last().level == level
            && poss.last().slot == slot {
            1int
        } else {
            0int
        }
    }
}

/// The first positional slot at this level that still accepts a value,
/// scanning from `j`: a repeated positional always accepts, the others
/// accept until filled once.
pub open spec fn first_unfilled(
    ps: Seq<Positional>,
    poss: Seq<PosOccS>,
    level: int,
    j: int,
) -> Option<int>
    decreases ps.len() - j,
{
    if j < 0 || j >= ps.len() {
        None
    } else if ps[j].arity == Arity::Repeated {
        Some(j)
    } else if pos_count(poss, level, j) == 0 {
        Some(j)
    } else {
        first_unfilled(ps, poss, level, j + 1)
    }
}

/// Does this bare token name the command (its primary name or an alias)?
pub open spec fn child_match(c: Cmd, n: Seq<u8>) -> bool {
    names_of(c).contains(n)
}

/// The position (within `children`) of the first child this token names.
pub open spec fn find_child(nodes: Seq<Cmd>, children: Seq<usize>, n: Seq<u8>, k: int) -> Option<
    int,
>
    decreases children.len() - k,
{
    if k < 0 || k >= children.len() {
        None
    } else if child_match(nodes[children[k] as int], n) {
        Some(k)
    } else {
        find_child(nodes, children, n, k + 1)
    }
}

/// Routes one bare token at the current command: an unfilled positional
/// slot takes it first; otherwise it may name a subcommand; otherwise the
/// default child is tried, transparently, and the token reconsidered there;
/// otherwise it is unexpected.
pub open spec fn route_bare(nodes: Seq<Cmd>, st: StateS, a: ArgS) -> Result<StateS, ErrS>
    decreases nodes.len() - st.path.last(),
{
    let cur = st.path.last() as int;
    let c = nodes[cur];
    let level = st.path.len() - 1;
    match first_unfilled(c.positionals@, st.poss, level as int, 0) {
        Some(j) => {
            let p = c.positionals@[j];
            match coerce_spec(p.tag, a) {
                Some(v) => Ok(
                    StateS {
                        poss: st.poss.push(
                            PosOccS { level: level as int, slot: j, name: p.name@, value: v },
                        ),
                        ..st
                    },
                ),
                None => Err(
                    ErrS::TypeConversionFailure { name: p.name@, raw: a.bytes, tag: p.tag },
                ),
            }
        },
        None => match find_child(nodes, c.children@, a.bytes, 0) {
            Some(k) => Ok(StateS { path: st.path.push(c.children@[k]), ..st }),
            None => match c.default_child {
                Some(d) => if cur < d < nodes.len() {
                    route_bare(nodes, StateS { path: st.path.push(d), ..st }, a)
                } else {
                    Err(ErrS::UnexpectedArgument { token: a.bytes })
                },
                None => Err(ErrS::UnexpectedArgument { token: a.bytes }),
            },
        },
    }
}

/// Records one occurrence of the switch at `(l, j)`, consuming its value
/// from the inline part or from the next token when one is owed.  In the
/// result, the flag tells whether the next token was consumed as the value.
pub open spec fn apply_switch(
    nodes: Seq<Cmd>,
    st: StateS,
    l: int,
    j: int,
    inline: Option<Seq<u8>>,
    args: Seq<Arg>,
    i: int,
    token: Seq<u8>,
) -> Result<(StateS, bool), ErrS> {
    let sw = nodes[st.path[l] as int].switches@[j];
    match sw.value {
        Some(vd) => match inline {
            Some(v) => match coerce_spec(vd.tag, ArgS { is_text: true, bytes: v }) {
                Some(val) => push_occ(st, sw, Some(val), false),
                None => Err(
                    ErrS::TypeConversionFailure { name: sw.long@, raw: v, tag: vd.tag },
                ),
            },
            None => if i + 1 < args.len() && classify(args[i + 1]@, st.after_sep)
                is Bare {
                match coerce_spec(vd.tag, args[i + 1]@) {
                    Some(val) => push_occ(st, sw, Some(val), true),
                    None => Err(
                        ErrS::TypeConversionFailure {
                            name: sw.long@,
                            raw: args[i + 1]@.bytes,
                            tag: vd.tag,
                        },
                    ),
                }
            } else {
                Err(ErrS::MissingValue { switch: sw.long@ })
            },
        },
        None => match inline {
            Some(_) => Err(ErrS::UnexpectedArgument { token }),
            None => push_occ(st, sw, None, false),
        },
    }
}

/// Appends the occurrence unless a non-repeated switch already occurred.
pub open spec fn push_occ(st: StateS, sw: Switch, val: Option<ValueS>, took_next: bool) -> Result<
    (StateS, bool),
    ErrS,
> {
    if sw.arity != Arity::Repeated && occs_has(st.occs, sw.long@) {
        Err(ErrS::DuplicateSwitch { switch: sw.long@ })
    } else {
        Ok((StateS { occs: st.occs.push(OccS { long: sw.long@, value: val }), ..st }, took_next))
    }
}

/// The first required switch, scanning from `j`, that never occurred.
pub open spec fn missing_switch(sws: Seq<Switch>, occs: Seq<OccS>, j: int) -> Option<Seq<u8>>
    decreases sws.len() - j,
{
    if j < 0 || j >= sws.len() {
        None
    } else if sws[j].arity == Arity::Required && !occs_has(occs, sws[j].long@) {
        Some(sws[j].long@)
    } else {
        missing_switch(sws, occs, j + 1)
    }
}

/// The first required positional at this level, scanning from `j`, that
/// never received a value.
pub open spec fn missing_pos(
    ps: Seq<Positional>,
    poss: Seq<PosOccS>,
    level: int,
    j: int,
) -> Option<Seq<u8>>
    decreases ps.len() - j,
{
    if j < 0 || j >= ps.len() {
        None
    } else if ps[j].arity == Arity::Required && pos_count(poss, level, j) == 0 {
        Some(ps[j].name@)
    } else {
        missing_pos(ps, poss, level, j + 1)
    }
}

/// The first missing required item along the path, level by level from the
/// root, switches before positionals.
pub open spec fn first_missing(nodes: Seq<Cmd>, st: StateS, l: int) -> Option<ErrS>
    decreases st.path.len() - l,
{
    if l < 0 || l >= st.path.len() {
        None
    } else {
        let c = nodes[st.path[l] as int];
        match missing_switch(c.switches@, st.occs, 0) {
            Some(name) => Some(ErrS::MissingRequired { name }),
            None => match missing_pos(c.positionals@, st.poss, l, 0) {
                Some(name) => Some(ErrS::MissingRequired { name }),
                None => first_missing(nodes, st, l + 1),
            },
        }
    }
}

/// The name under which a missing subcommand is reported.
pub open spec fn subcommand_name() -> Seq<u8> {
    seq![
        ('s' as u8),
        ('u' as u8),
        ('b' as u8),
        ('c' as u8),
        ('o' as u8),
        ('m' as u8),
        ('m' as u8),
        ('a' as u8),
        ('n' as u8),
        ('d' as u8),
    ]
}

/// End of input: descend through default children while the current
/// command still has children, then check every required switch and
/// positional along the resolved path.
pub open spec fn finalize(nodes: Seq<Cmd>, st: StateS) -> Result<OutcomeS, ErrS>
    decreases nodes.len() - st.path.last(),
{
    let cur = st.path.last() as int;
    let c = nodes[cur];
    if c.children@.len() > 0 {
        match c.default_child {
            Some(d) => if cur < d < nodes.len() {
                finalize(nodes, StateS { path: st.path.push(d), ..st })
            } else {
                Err(ErrS::MissingRequired { name: subcommand_name() })
            },
            None => Err(ErrS::MissingRequired { name: subcommand_name() }),
        }
    } else {
        match first_missing(nodes, st, 0) {
            Some(e) => Err(e),
            None => Ok(OutcomeS { path: st.path, occs: st.occs, poss: st.poss }),
        }
    }
}

/// One step of the matcher per token, from argument `i` on: what the whole
/// parse returns.
pub open spec fn run_from(nodes: Seq<Cmd>, st: StateS, args: Seq<Arg>, i: int) -> Result<
    OutcomeS,
    ErrS,
>
    decreases args.len() - i,
{
    if i < 0 || i >= args.len() {
        finalize(nodes, st)
    } else {
        let a = args[i]@;
        match classify(a, st.after_sep) {
            TokenS::Separator => run_from(
                nodes,
                StateS { after_sep: true, ..st },
                args,
                i + 1,
            ),
            TokenS::Bare => match route_bare(nodes, st, a) {
                Ok(st2) => run_from(nodes, st2, args, i + 1),
                Err(e) => Err(e),
            },
            TokenS::Long { name, inline } => if name == help_name() {
                Err(ErrS::HelpRequested { path: st.path })
            } else {
                match find_long(nodes, st.path, name, 0) {
                    None => Err(ErrS::UnknownSwitch { token: a.bytes }),
                    Some((l, j)) => match apply_switch(
                        nodes,
                        st,
                        l,
                        j,
                        inline,
                        args,
                        i,
                        a.bytes,
                    ) {
                        Ok((st2, took_next)) => run_from(
                            nodes,
                            st2,
                            args,
                            if took_next {
                                i + 2
                            } else {
                                i + 1
                            },
                        ),
                        Err(e) => Err(e),
                    },
                }
            },
            TokenS::Short { body } => if body == seq![('h' as u8)] {
                Err(ErrS::HelpRequested { path: st.path })
            } else if body.len() != 1 {
                Err(ErrS::UnknownSwitch { token: a.bytes })
            } else {
                match find_short(nodes, st.path, body[0], 0) {
                    None => Err(ErrS::UnknownSwitch { token: a.bytes }),
                    Some((l, j)) => match apply_switch(
                        nodes,
                        st,
                        l,
                        j,
                        None,
                        args,
                        i,
                        a.bytes,
                    ) {
                        Ok((st2, took_next)) => run_from(
                            nodes,
                            st2,
                            args,
                            if took_next {
                                i + 2
                            } else {
                                i + 1
                            },
                        ),
                        Err(e) => Err(e),
                    },
                }
            },
        }
    }
}

/// What parsing an argument list against a grammar returns.
pub open spec fn parse_spec(nodes: Seq<Cmd>, args: Seq<Arg>) -> Result<OutcomeS, ErrS> {
    run_from(nodes, init_state(), args, 0)
}

/// The view of an executable parse result.
pub open spec fn res_view(r: Result<ParseOutcome, ParseError>) -> Result<OutcomeS, ErrS> {
    match r {
        Ok(o) => Ok(o@),
        Err(e) => Err(e@),
    }
}

/// The matcher's executable working state.
struct State {
    path: Vec<usize>,
    occs: Vec<Occ>,
    poss: Vec<PosOcc>,
    after_sep: bool,
}

impl View for State {
    type V = StateS;

    closed spec fn view(&self) -> StateS {
        StateS {
            path: self.path@,
            occs: occs_view(self.occs@),
            poss: poss_view(self.poss@),
            after_sep: self.after_sep,
        }
    }
}

/// The structural soundness the state keeps during a parse: a nonempty,
/// strictly rising command path inside the grammar.
pub open spec fn st_inv(nodes: Seq<Cmd>, st: StateS) -> bool {
    &&& st.path.len() >= 1
    &&& forall|k: int| 0 <= k < st.path.len() ==> (#[trigger] st.path[k]) < nodes.len()
    &&& forall|k: int| 0 <= k < st.path.len() - 1 ==> (#[trigger] st.path[k]) < st.path[k + 1]
}

/// The view of an optional index.
pub open spec fn ov_us(o: Option<usize>) -> Option<int> {
    match o {
        Some(x) => Some(x as int),
        None => None,
    }
}

/// The view of an optional index pair.
pub open spec fn ov_pair(o: Option<(usize, usize)>) -> Option<(int, int)> {
    match o {
        Some((a, b)) => Some((a as int, b as int)),
        None => None,
    }
}

/// The view of an optional byte string.
pub open spec fn ov_bytes(o: Option<Vec<u8>>) -> Option<Seq<u8>> {
    match o {
        Some(v) => Some(v@),
        None => None,
    }
}

/// A fresh copy of an index vector.
#[verifier::loop_isolation(false)]
fn copy_indices(src: &Vec<usize>) -> (r: Vec<usize>)
    ensures
        r@ == src@,
{
    let mut out: Vec<usize> = Vec::new();
    let mut i: usize = 0;
    while i < src.len()
        invariant
            i <= src.len(),
            out@ == src@.subrange(0, i as int),
        decreases src.len() - i,
    {
        out.push(src[i]);
        proof {
            assert(out@ =~= src@.subrange(0, i + 1 as int));
        }
        i = i + 1;
    }
    proof {
        assert(out@ =~= src@);
    }
    out
}

/// The raw bytes of an argument.
fn arg_bytes_ref(a: &Arg) -> (r: &Vec<u8>)
    ensures
        r@ == a@.bytes,
{
    match a {
        Arg::Text(v) => v,
        Arg::Bytes(v) => v,
    }
}

/// Finds a long name among these switches.
#[verifier::loop_isolation(false)]
fn x_find_long_in(sws: &Vec<Switch>, name: &Vec<u8>) -> (r: Option<usize>)
    ensures
        ov_us(r) == find_long_in(sws@, name@, 0),
        r matches Some(j) ==> j < sws@.len(),
{
    let mut j: usize = 0;
    while j < sws.len()
        invariant
            j <= sws@.len(),
            find_long_in(sws@, name@, 0) == find_long_in(sws@, name@, j as int),
        decreases sws@.len() - j,
    {
        if bytes_eq(&sws[j].long, name) {
            return Some(j);
        }
        j = j + 1;
    }
    None
}

/// Finds a short name among these switches.
#[verifier::loop_isolation(false)]
fn x_find_short_in(sws: &Vec<Switch>, b: u8) -> (r: Option<usize>)
    ensures
        ov_us(r) == find_short_in(sws@, b, 0),
        r matches Some(j) ==> j < sws@.len(),
{
    let mut j: usize = 0;
    while j < sws.len()
        invariant
            j <= sws@.len(),
            find_short_in(sws@, b, 0) == find_short_in(sws@, b, j as int),
        decreases sws@.len() - j,
    {
        let hit = match sws[j].short {
            Some(c) => c == b,
            None => false,
        };
        if hit {
            return Some(j);
        }
        j = j + 1;
    }
    None
}

/// Finds a long name among the switches visible along the path.
#[verifier::loop_isolation(false)]
fn x_find_long(g: &Grammar, path: &Vec<usize>, name: &Vec<u8>) -> (r: Option<(usize, usize)>)
    requires
        forall|k: int| 0 <= k < path@.len() ==> (#[trigger] path@[k]) < g.nodes().len(),
    ensures
        ov_pair(r) == find_long(g.nodes(), path@, name@, 0),
        r matches Some((l, j)) ==> l < path@.len() && j < g.nodes()[path@[l as int]
            as int].switches@.len(),
{
    let mut l: usize = 0;
    while l < path.len()
        invariant
            l <= path@.len(),
            find_long(g.nodes(), path@, name@, 0) == find_long(
                g.nodes(),
                path@,
                name@,
                l as int,
            ),
        decreases path@.len() - l,
    {
        let c = g.node(path[l]);
        match x_find_long_in(&c.switches, name) {
            Some(j) => {
                return Some((l, j));
            },
            None => {},
        }
        l = l + 1;
    }
    None
}

/// Finds a short name among the switches visible along the path.
#[verifier::loop_isolation(false)]
fn x_find_short(g: &Grammar, path: &Vec<usize>, b: u8) -> (r: Option<(usize, usize)>)
    requires
        forall|k: int| 0 <= k < path@.len() ==> (#[trigger] path@[k]) < g.nodes().len(),
    ensures
        ov_pair(r) == find_short(g.nodes(), path@, b, 0),
        r matches Some((l, j)) ==> l < path@.len() && j < g.nodes()[path@[l as int]
            as int].switches@.len(),
{
    let mut l: usize = 0;
    while l < path.len()
        invariant
            l <= path@.len(),
            find_short(g.nodes(), path@, b, 0) == find_short(g.nodes(), path@, b, l as int),
        decreases path@.len() - l,
    {
        let c = g.node(path[l]);
        match x_find_short_in(&c.switches, b) {
            Some(j) => {
                return Some((l, j));
            },
            None => {},
        }
        l = l + 1;
    }
    None
}

/// Has a switch with this long name already occurred?
#[verifier::loop_isolation(false)]
fn x_occs_has(occs: &Vec<Occ>, long: &Vec<u8>) -> (r: bool)
    ensures
        r == occs_has(occs_view(occs@), long@),
{
    let mut k: usize = 0;
    while k < occs.len()
        invariant
            k <= occs@.len(),
            forall|x: int| 0 <= x < k ==> occs_view(occs@)[x].long != long@,
        decreases occs@.len() - k,
    {
        if bytes_eq(&occs[k].long, long) {
            proof {
                assert(occs_view(occs@)[k as int].long == long@);
            }
            return true;
        }
        k = k + 1;
    }
    false
}

/// Counts the values the slot `(level, slot)` has received.
#[verifier::loop_isolation(false)]
fn x_pos_count(poss: &Vec<PosOcc>, level: usize, slot: usize) -> (r: usize)
    ensures
        r as int == pos_count(poss_view(poss@), level as int, slot as int),
{
    let ghost ps = poss_view(poss@);
    let mut cnt: usize = 0;
    let mut k: usize = 0;
    while k < poss.len()
        invariant
            k <= poss@.len(),
            cnt <= k,
            cnt as int == pos_count(ps.subrange(0, k as int), level as int, slot as int),
        decreases poss@.len() - k,
    {
        proof {
            assert(ps.subrange(0, k + 1 as int).drop_last() =~= ps.subrange(0, k as int));
            assert(ps.subrange(0, k + 1 as int).last() == ps[k as int]);
        }
        let p = &poss[k];
        if p.level == level && p.slot == slot {
            cnt = cnt + 1;
        }
        k = k + 1;
    }
    proof {
        assert(ps.subrange(0, ps.len() as int) =~= ps);
    }
    cnt
}

/// Finds the first positional slot at this level that still accepts a
/// value.
#[verifier::loop_isolation(false)]
fn x_first_unfilled(ps: &Vec<Positional>, poss: &Vec<PosOcc>, level: usize) -> (r: Option<usize>)
    ensures
        ov_us(r) == first_unfilled(ps@, poss_view(poss@), level as int, 0),
        r matches Some(j) ==> j < ps@.len(),
{
    let mut j: usize = 0;
    while j < ps.len()
        invariant
            j <= ps@.len(),
            first_unfilled(ps@, poss_view(poss@), level as int, 0) == first_unfilled(
                ps@,
                poss_view(poss@),
                level as int,
                j as int,
            ),
        decreases ps@.len() - j,
    {
        if ps[j].arity == Arity::Repeated {
            return Some(j);
        }
        if x_pos_count(poss, level, j) == 0 {
            return Some(j);
        }
        j = j + 1;
    }
    None
}

/// Pointwise content of [`crate::grammar::alias_names`].
proof fn lemma_alias_names(al: Seq<Vec<u8>>, k: int)
    requires
        0 <= k <= al.len(),
    ensures
        crate::grammar::alias_names(al, k).len() == k,
        forall|j: int| 0 <= j < k ==> crate::grammar::alias_names(al, k)[j] == al[j]@,
    decreases k,
{
    if k > 0 {
        lemma_alias_names(al, k - 1);
    }
}

/// Does this token name the command?
#[verifier::loop_isolation(false)]
fn x_child_match(c: &Cmd, n: &Vec<u8>) -> (r: bool)
    ensures
        r == child_match(*c, n@),
{
    proof {
        lemma_alias_names(c.aliases@, c.aliases@.len() as int);
    }
    if bytes_eq(&c.name, n) {
        proof {
            assert(names_of(*c)[0] == n@);
            assert(names_of(*c).contains(n@));
        }
        return true;
    }
    let mut a: usize = 0;
    while a < c.aliases.len()
        invariant
            a <= c.aliases@.len(),
            forall|j: int| 0 <= j < a ==> c.aliases@[j]@ != n@,
        decreases c.aliases@.len() - a,
    {
        if bytes_eq(&c.aliases[a], n) {
            proof {
                assert(names_of(*c)[a + 1] == n@);
                assert(names_of(*c).contains(n@));
            }
            return true;
        }
        a = a + 1;
    }
    proof {
        assert forall|x: int| 0 <= x < names_of(*c).len() implies names_of(*c)[x] != n@ by {
            if x > 0 {
                assert(names_of(*c)[x] == c.aliases@[x - 1]@);
            }
        }
        assert(!names_of(*c).contains(n@));
    }
    false
}

/// Finds the child this token names.
#[verifier::loop_isolation(false)]
fn x_find_child(g: &Grammar, c: &Cmd, n: &Vec<u8>) -> (r: Option<usize>)
    requires
        forall|k: int| 0 <= k < c.children@.len() ==> (#[trigger] c.children@[k])
            < g.nodes().len(),
    ensures
        ov_us(r) == find_child(g.nodes(), c.children@, n@, 0),
        r matches Some(k) ==> k < c.children@.len(),
{
    let mut k: usize = 0;
    while k < c.children.len()
        invariant
            k <= c.children@.len(),
            find_child(g.nodes(), c.children@, n@, 0) == find_child(
                g.nodes(),
                c.children@,
                n@,
                k as int,
            ),
        decreases c.children@.len() - k,
    {
        let child = g.node(c.children[k]);
        if x_child_match(child, n) {
            return Some(k);
        }
        k = k + 1;
    }
    None
}

/// Routes one bare token; `None` means it was consumed into the state.
#[verifier::loop_isolation(false)]
fn x_route_bare(g: &Grammar, st: &mut State, a: &Arg) -> (r: Option<ParseError>)
    requires
        g.wf(),
        st_inv(g.nodes(), old(st)@),
    ensures
        route_bare(g.nodes(), old(st)@, a@) matches Ok(st2) ==> (r is None && final(st)@ == st2
            && st_inv(g.nodes(), st2)),
        route_bare(g.nodes(), old(st)@, a@) matches Err(e) ==> (r matches Some(pe) && pe@ == e),
{
    loop
        invariant
            g.wf(),
            st_inv(g.nodes(), st@),
            route_bare(g.nodes(), old(st)@, a@) == route_bare(g.nodes(), st@, a@),
            st@.occs == old(st)@.occs,
            st@.poss == old(st)@.poss,
            st@.after_sep == old(st)@.after_sep,
        decreases g.nodes().len() - st@.path.last(),
    {
        let level = st.path.len() - 1;
        let cur = st.path[level];
        let c = g.node(cur);
        proof {
            assert(node_ok(g.nodes(), cur as int));
        }
        match x_first_unfilled(&c.positionals, &st.poss, level) {
            Some(j) => {
                let p = &c.positionals[j];
                match crate::value::coerce_arg(p.tag, a) {
                    Some(v) => {
                        let ghost st_pre = st@;
                        let occ = PosOcc {
                            level,
                            slot: j,
                            name: copy_bytes(&p.name),
                            value: v,
                        };
                        let ghost occ_v = occ@;
                        st.poss.push(occ);
                        proof {
                            assert(poss_view(st.poss@) =~= st_pre.poss.push(occ_v));
                            assert(st@ =~= StateS { poss: st_pre.poss.push(occ_v), ..st_pre });
                        }
                        return None;
                    },
                    None => {
                        let e = ParseError::TypeConversionFailure {
                            name: copy_bytes(&p.name),
                            raw: copy_bytes(arg_bytes_ref(a)),
                            tag: p.tag,
                        };
                        return Some(e);
                    },
                }
            },
            None => {
                let nb = arg_bytes_ref(a);
                match x_find_child(g, c, &copy_bytes(nb)) {
                    Some(k) => {
                        let ghost st_pre = st@;
                        let child = c.children[k];
                        st.path.push(child);
                        proof {
                            assert(st@ =~= StateS {
                                path: st_pre.path.push(child),
                                ..st_pre
                            });
                        }
                        return None;
                    },
                    None => {
                        match c.default_child {
                            Some(d) => {
                                proof {
                                    let ck = choose|ck: int|
                                        0 <= ck < c.children@.len() && c.children@[ck] == d;
                                    assert((st@.path.last() as int) < d < g.nodes().len());
                                }
                                let ghost st_pre = st@;
                                st.path.push(d);
                                proof {
                                    assert(st@ =~= StateS {
                                        path: st_pre.path.push(d),
                                        ..st_pre
                                    });
                                }
                            },
                            None => {
                                let e = ParseError::UnexpectedArgument {
                                    token: copy_bytes(arg_bytes_ref(a)),
                                };
                                return Some(e);
                            },
                        }
                    },
                }
            },
        }
    }
}

/// Records one switch occurrence; `Ok` tells whether the next token was
/// consumed as the switch's value.
#[verifier::loop_isolation(false)]
fn x_apply_switch(
    g: &Grammar,
    st: &mut State,
    l: usize,
    j: usize,
    inline: Option<Vec<u8>>,
    args: &Vec<Arg>,
    i: usize,
    token: &Vec<u8>,
) -> (r: Result<bool, ParseError>)
    requires
        g.wf(),
        st_inv(g.nodes(), old(st)@),
        l < old(st)@.path.len(),
        j < g.nodes()[old(st)@.path[l as int] as int].switches@.len(),
        i < args@.len(),
    ensures
        apply_switch(
            g.nodes(),
            old(st)@,
            l as int,
            j as int,
            ov_bytes(inline),
            args@,
            i as int,
            token@,
        ) matches Ok((st2, took)) ==> (r matches Ok(t) && t == took && final(st)@ == st2
            && st_inv(g.nodes(), st2)),
        apply_switch(
            g.nodes(),
            old(st)@,
            l as int,
            j as int,
            ov_bytes(inline),
            args@,
            i as int,
            token@,
        ) matches Err(e) ==> (r matches Err(pe) && pe@ == e),
{
    let cur = st.path[l];
    let sw = &g.node(cur).switches[j];
    let repeated = sw.arity == Arity::Repeated;
    match &sw.value {
        Some(vd) => {
            // the switch takes a value: inline, or the next bare token
            let (val, took): (Option<Value>, bool) = match &inline {
                Some(v) => {
                    match coerce(vd.tag, true, v) {
                        Some(val) => (Some(val), false),
                        None => {
                            return Err(ParseError::TypeConversionFailure {
                                name: copy_bytes(&sw.long),
                                raw: copy_bytes(v),
                                tag: vd.tag,
                            });
                        },
                    }
                },
                None => {
                    let has_next = i < args.len() - 1;
                    if has_next {
                        let nxt = &args[i + 1];
                        let tok = crate::token::classify_arg(nxt, st.after_sep);
                        let is_bare = match tok {
                            Token::Bare => true,
                            _ => false,
                        };
                        if is_bare {
                            match crate::value::coerce_arg(vd.tag, nxt) {
                                Some(val) => (Some(val), true),
                                None => {
                                    return Err(ParseError::TypeConversionFailure {
                                        name: copy_bytes(&sw.long),
                                        raw: copy_bytes(arg_bytes_ref(nxt)),
                                        tag: vd.tag,
                                    });
                                },
                            }
                        } else {
                            return Err(ParseError::MissingValue {
                                switch: copy_bytes(&sw.long),
                            });
                        }
                    } else {
                        return Err(ParseError::MissingValue { switch: copy_bytes(&sw.long) });
                    }
                },
            };
            if !repeated && x_occs_has(&st.occs, &sw.long) {
                return Err(ParseError::DuplicateSwitch { switch: copy_bytes(&sw.long) });
            }
            let ghost st_pre = st@;
            let occ = Occ { long: copy_bytes(&sw.long), value: val };
            let ghost occ_v = occ@;
            st.occs.push(occ);
            proof {
                assert(occs_view(st.occs@) =~= st_pre.occs.push(occ_v));
                assert(st@ =~= StateS { occs: st_pre.occs.push(occ_v), ..st_pre });
            }
            Ok(took)
        },
        None => {
            // boolean switch: no value may be glued on
            match &inline {
                Some(_) => Err(ParseError::UnexpectedArgument { token: copy_bytes(token) }),
                None => {
                    if !repeated && x_occs_has(&st.occs, &sw.long) {
                        return Err(ParseError::DuplicateSwitch {
                            switch: copy_bytes(&sw.long),
                        });
                    }
                    let ghost st_pre = st@;
                    let occ = Occ { long: copy_bytes(&sw.long), value: None };
                    let ghost occ_v = occ@;
                    st.occs.push(occ);
                    proof {
                        assert(occs_view(st.occs@) =~= st_pre.occs.push(occ_v));
                        assert(st@ =~= StateS { occs: st_pre.occs.push(occ_v), ..st_pre });
                    }
                    Ok(false)
                },
            }
        },
    }
}

/// Scans these switches for an unmet `Required` one.
#[verifier::loop_isolation(false)]
fn x_missing_switch(sws: &Vec<Switch>, occs: &Vec<Occ>) -> (r: Option<Vec<u8>>)
    ensures
        ov_bytes(r) == missing_switch(sws@, occs_view(occs@), 0),
{
    let mut j: usize = 0;
    while j < sws.len()
        invariant
            j <= sws@.len(),
            missing_switch(sws@, occs_view(occs@), 0) == missing_switch(
                sws@,
                occs_view(occs@),
                j as int,
            ),
        decreases sws@.len() - j,
    {
        let sw = &sws[j];
        if sw.arity == Arity::Required && !x_occs_has(occs, &sw.long) {
            return Some(copy_bytes(&sw.long));
        }
        j = j + 1;
    }
    None
}

/// Scans these positionals for an unmet `Required` one.
#[verifier::loop_isolation(false)]
fn x_missing_pos(ps: &Vec<Positional>, poss: &Vec<PosOcc>, level: usize) -> (r: Option<Vec<u8>>)
    ensures
        ov_bytes(r) == missing_pos(ps@, poss_view(poss@), level as int, 0),
{
    let mut j: usize = 0;
    while j < ps.len()
        invariant
            j <= ps@.len(),
            missing_pos(ps@, poss_view(poss@), level as int, 0) == missing_pos(
                ps@,
                poss_view(poss@),
                level as int,
                j as int,
            ),
        decreases ps@.len() - j,
    {
        let p = &ps[j];
        if p.arity == Arity::Required && x_pos_count(poss, level, j) == 0 {
            return Some(copy_bytes(&p.name));
        }
        j = j + 1;
    }
    None
}

/// The executable word for the reported missing subcommand.
fn x_subcommand_name() -> (r: Vec<u8>)
    ensures
        r@ == subcommand_name(),
{
    let mut v: Vec<u8> = Vec::new();
    v.push('s' as u8);
    v.push('u' as u8);
    v.push('b' as u8);
    v.push('c' as u8);
    v.push('o' as u8);
    v.push('m' as u8);
    v.push('m' as u8);
    v.push('a' as u8);
    v.push('n' as u8);
    v.push('d' as u8);
    proof {
        assert(v@ =~= subcommand_name());
    }
    v
}

/// Finishes a parse at end of input.
#[verifier::loop_isolation(false)]
#[verifier::rlimit(80)]
fn x_finalize(g: &Grammar, st: State) -> (r: Result<ParseOutcome, ParseError>)
    requires
        g.wf(),
        st_inv(g.nodes(), st@),
    ensures
        res_view(r) == finalize(g.nodes(), st@),
{
    let ghost st0 = st@;
    let mut st = st;
    loop
        invariant
            g.wf(),
            st_inv(g.nodes(), st@),
            finalize(g.nodes(), st0) == finalize(g.nodes(), st@),
        decreases g.nodes().len() - st@.path.last(),
    {
        let level = st.path.len() - 1;
        let cur = st.path[level];
        let c = g.node(cur);
        proof {
            assert(node_ok(g.nodes(), cur as int));
        }
        if c.children.len() > 0 {
            match c.default_child {
                Some(d) => {
                    proof {
                        let ck = choose|ck: int|
                            0 <= ck < c.children@.len() && c.children@[ck] == d;
                        assert((st@.path.last() as int) < d < g.nodes().len());
                    }
                    let ghost st_pre = st@;
                    st.path.push(d);
                    proof {
                        assert(st@ =~= StateS { path: st_pre.path.push(d), ..st_pre });
                    }
                },
                None => {
                    return Err(ParseError::MissingRequired { name: x_subcommand_name() });
                },
            }
        } else {
            break;
        }
    }
    // the path is resolved; check required items level by level
    let mut l: usize = 0;
    while l < st.path.len()
        invariant
            l <= st@.path.len(),
            first_missing(g.nodes(), st@, 0) == first_missing(g.nodes(), st@, l as int),
        decreases st@.path.len() - l,
    {
        let c = g.node(st.path[l]);
        match x_missing_switch(&c.switches, &st.occs) {
            Some(name) => {
                return Err(ParseError::MissingRequired { name });
            },
            None => {},
        }
        match x_missing_pos(&c.positionals, &st.poss, l) {
            Some(name) => {
                return Err(ParseError::MissingRequired { name });
            },
            None => {},
        }
        l = l + 1;
    }
    let State { path, occs, poss, after_sep: _ } = st;
    Ok(ParseOutcome { path, occs, poss })
}

/// Parses an argument list against a validated grammar: exactly what
/// [`parse_spec`] says, for every input.
#[verifier::loop_isolation(false)]
#[verifier::rlimit(80)]
pub fn parse(g: &Grammar, args: &Vec<Arg>) -> (r: Result<ParseOutcome, ParseError>)
    requires
        g.wf(),
    ensures
        res_view(r) == parse_spec(g.nodes(), args@),
{
    let mut path0: Vec<usize> = Vec::new();
    path0.push(0);
    let mut st = State { path: path0, occs: Vec::new(), poss: Vec::new(), after_sep: false };
    proof {
        assert(st@ =~= init_state());
        assert(st_inv(g.nodes(), st@));
    }
    let mut i: usize = 0;
    while i < args.len()
        invariant
            i <= args@.len(),
            st_inv(g.nodes(), st@),
            run_from(g.nodes(), init_state(), args@, 0) == run_from(
                g.nodes(),
                st@,
                args@,
                i as int,
            ),
        decreases args@.len() - i,
    {
        let a = &args[i];
        let tok = crate::token::classify_arg(a, st.after_sep);
        match tok {
            Token::Separator => {
                let ghost st_pre = st@;
                st.after_sep = true;
                proof {
                    assert(st@ =~= StateS { after_sep: true, ..st_pre });
                }
                i = i + 1;
            },
            Token::Bare => {
                match x_route_bare(g, &mut st, a) {
                    None => {
                        i = i + 1;
                    },
                    Some(pe) => {
                        return Err(pe);
                    },
                }
            },
            Token::Long { name, inline } => {
                if crate::grammar::is_help_long(&name) {
                    return Err(ParseError::HelpRequested { path: copy_indices(&st.path) });
                }
                match x_find_long(g, &st.path, &name) {
                    None => {
                        return Err(ParseError::UnknownSwitch {
                            token: copy_bytes(arg_bytes_ref(a)),
                        });
                    },
                    Some((l, j)) => {
                        let token = copy_bytes(arg_bytes_ref(a));
                        match x_apply_switch(g, &mut st, l, j, inline, args, i, &token) {
                            Ok(took) => {
                                if took {
                                    i = i + 2;
                                } else {
                                    i = i + 1;
                                }
                            },
                            Err(pe) => {
                                return Err(pe);
                            },
                        }
                    },
                }
            },
            Token::Short { body } => {
                if body.len() == 1 && body[0] == ('h' as u8) {
                    proof {
                        assert(body@ =~= seq![('h' as u8)]);
                    }
                    return Err(ParseError::HelpRequested { path: copy_indices(&st.path) });
                }
                proof {
                    if body@.len() == 1 {
                        assert(body@ != seq![('h' as u8)]);
                    }
                }
                if body.len() != 1 {
                    return Err(ParseError::UnknownSwitch {
                        token: copy_bytes(arg_bytes_ref(a)),
                    });
                }
                match x_find_short(g, &st.path, body[0]) {
                    None => {
                        return Err(ParseError::UnknownSwitch {
                            token: copy_bytes(arg_bytes_ref(a)),
                        });
                    },
                    Some((l, j)) => {
                        let token = copy_bytes(arg_bytes_ref(a));
                        match x_apply_switch(g, &mut st, l, j, None, args, i, &token) {
                            Ok(took) => {
                                if took {
                                    i = i + 2;
                                } else {
                                    i = i + 1;
                                }
                            },
                            Err(pe) => {
                                return Err(pe);
                            },
                        }
                    },
                }
            },
        }
    }
    x_finalize(g, st)
}

} // verus!
