//! The grammar model: an immutable tree of command descriptors.
//!
//! A [`Grammar`] holds its commands in one vector, the root at index 0; a
//! command points at its children by index, and every child index is
//! strictly greater than its parent's, so walks from the root terminate.
//! [`Grammar::new`] validates the whole tree once; afterwards the tree is
//! read-only and shared by every parse and by help rendering.
//!
//! The long name `help` and the short name `h` are reserved for the built-in
//! help convention and may not be declared.

use vstd::prelude::*;
use crate::bytes::{bytes_eq, copy_bytes};

verus! {

/// How many times a switch or positional may (or must) appear.
#[derive(Clone, Copy, PartialEq, Eq, Structural, Debug)]
pub enum Arity {
    /// At most once; absence is allowed.
    Optional,
    /// Exactly once.
    Required,
    /// Any number of times.
    Repeated,
}

/// The target type of a value-taking switch or of a positional.
#[derive(Clone, Copy, PartialEq, Eq, Structural, Debug)]
pub enum TypeTag {
    /// The raw argument bytes, verbatim; never fails.
    RawBytes,
    /// A filesystem path, kept as raw bytes, verbatim; never fails.
    RawPath,
    /// Plain text; fails on a non-textual argument.
    Text,
    /// A signed decimal integer parsed from text.
    Integer,
}

/// The value descriptor of a value-taking switch: the placeholder name shown
/// in help, and the target type.
pub struct ValueDesc {
    pub name: Vec<u8>,
    pub tag: TypeTag,
}

/// A named flag: mandatory long name (without the leading dashes), optional
/// single-byte short alias, arity, optional value descriptor, optional doc
/// line.  A switch without a value descriptor is boolean: only its
/// occurrence count matters.
pub struct Switch {
    pub long: Vec<u8>,
    pub short: Option<u8>,
    pub arity: Arity,
    pub value: Option<ValueDesc>,
    pub doc: Option<Vec<u8>>,
}

/// A positional argument: consumed from the bare tokens in declaration
/// order.
pub struct Positional {
    pub name: Vec<u8>,
    pub arity: Arity,
    pub tag: TypeTag,
    pub doc: Option<Vec<u8>>,
}

/// One command: its invocation names, its own switches and positionals, and
/// its children (as indices into the grammar's node vector).
pub struct Cmd {
    pub name: Vec<u8>,
    pub aliases: Vec<Vec<u8>>,
    pub doc: Option<Vec<u8>>,
    pub positionals: Vec<Positional>,
    pub switches: Vec<Switch>,
    pub children: Vec<usize>,
    pub default_child: Option<usize>,
}

/// The byte string `help`, whose long form is reserved.
pub open spec fn help_name() -> Seq<u8> {
    seq![('h' as u8), ('e' as u8), ('l' as u8), ('p' as u8)]
}

/// A usable invocation name: nonempty and without a leading dash.
pub open spec fn name_ok(n: Seq<u8>) -> bool {
    n.len() > 0 && n[0] != ('-' as u8)
}

/// A usable switch long name: a usable name that contains no `=` (the
/// inline-value delimiter) and is not the reserved `help`.
pub open spec fn long_ok(n: Seq<u8>) -> bool {
    &&& name_ok(n)
    &&& !n.contains(('=' as u8))
    &&& n != help_name()
}

/// No byte string occurs twice.
pub open spec fn distinct_names(s: Seq<Seq<u8>>) -> bool {
    forall|p: int, q: int| 0 <= p < q < s.len() ==> s[p] != s[q]
}

/// No byte occurs twice.
pub open spec fn distinct_bytes(s: Seq<u8>) -> bool {
    forall|p: int, q: int| 0 <= p < q < s.len() ==> s[p] != s[q]
}

/// The views of the first `k` aliases.
pub open spec fn alias_names(al: Seq<Vec<u8>>, k: int) -> Seq<Seq<u8>>
    decreases k,
{
    if k <= 0 {
        Seq::empty()
    } else {
        alias_names(al, k - 1).push(al[k - 1]@)
    }
}

/// Every invocation name of a command: its primary name, then its aliases.
pub open spec fn names_of(c: Cmd) -> Seq<Seq<u8>> {
    seq![c.name@] + alias_names(c.aliases@, c.aliases@.len() as int)
}

/// The invocation names of the first `k` children of a node, concatenated
/// in child order.
pub open spec fn cat_names(nodes: Seq<Cmd>, children: Seq<usize>, k: int) -> Seq<Seq<u8>>
    decreases k,
{
    if k <= 0 {
        Seq::empty()
    } else {
        cat_names(nodes, children, k - 1) + names_of(nodes[children[k - 1] as int])
    }
}

/// The long names of the first `k` switches.
pub open spec fn own_longs(sws: Seq<Switch>, k: int) -> Seq<Seq<u8>>
    decreases k,
{
    if k <= 0 {
        Seq::empty()
    } else {
        own_longs(sws, k - 1).push(sws[k - 1].long@)
    }
}

/// The short names of the first `k` switches, in order, skipping switches
/// without one.
pub open spec fn own_shorts(sws: Seq<Switch>, k: int) -> Seq<u8>
    decreases k,
{
    if k <= 0 {
        Seq::empty()
    } else {
        own_shorts(sws, k - 1) + match sws[k - 1].short {
            Some(b) => seq![b],
            None => Seq::empty(),
        }
    }
}

/// The conditions a single node must meet on its own: child indices rise
/// strictly (the tree points forward), the default child is one of the
/// children, sibling invocation names never collide, every name is usable,
/// positional names are distinct, a repeated positional is last, and no
/// required positional follows an optional one.
pub open spec fn node_ok(nodes: Seq<Cmd>, i: int) -> bool {
    let c = nodes[i];
    let ps = c.positionals@;
    &&& forall|k: int| 0 <= k < c.children@.len() ==> i < #[trigger] c.children@[k] < nodes.len()
    &&& match c.default_child {
        Some(d) => c.children@.contains(d),
        None => true,
    }
    &&& distinct_names(cat_names(nodes, c.children@, c.children@.len() as int))
    &&& name_ok(c.name@)
    &&& forall|k: int| 0 <= k < c.aliases@.len() ==> name_ok(#[trigger] c.aliases@[k]@)
    &&& forall|j: int| 0 <= j < ps.len() ==> name_ok(#[trigger] ps[j].name@)
    &&& forall|j: int, k: int| 0 <= j < k < ps.len() ==> ps[j].name@ != ps[k].name@
    &&& forall|j: int| 0 <= j < ps.len() && #[trigger] ps[j].arity == Arity::Repeated ==> j
        == ps.len() - 1
    &&& forall|j: int, k: int|
        0 <= j < k < ps.len() && #[trigger] ps[j].arity == Arity::Optional ==> #[trigger] ps[k].arity
            != Arity::Required
    &&& forall|j: int| 0 <= j < c.switches@.len() ==> long_ok(#[trigger] c.switches@[j].long@)
    &&& forall|j: int| 0 <= j < c.switches@.len() ==> #[trigger] c.switches@[j].short != Some(('h' as u8))
}

/// Along every root path, the long names of all visible switches are
/// pairwise distinct, and so are the short names: a descendant may neither
/// shadow nor repeat an ancestor's switch.  `longs` and `shorts` carry what
/// the ancestors already declared.
pub open spec fn subtree_switches_ok(
    nodes: Seq<Cmd>,
    i: int,
    longs: Seq<Seq<u8>>,
    shorts: Seq<u8>,
) -> bool
    decreases nodes.len() - i,
{
    let c = nodes[i];
    let longs2 = longs + own_longs(c.switches@, c.switches@.len() as int);
    let shorts2 = shorts + own_shorts(c.switches@, c.switches@.len() as int);
    &&& distinct_names(longs2)
    &&& distinct_bytes(shorts2)
    &&& forall|k: int|
        0 <= k < c.children@.len() ==> (i < c.children@[k] < nodes.len()
            && subtree_switches_ok(nodes, c.children@[k] as int, longs2, shorts2))
}

/// A valid grammar: at least the root node, every node locally sound, and
/// switch names unique along every root path.
pub open spec fn grammar_ok(nodes: Seq<Cmd>) -> bool {
    &&& nodes.len() >= 1
    &&& forall|i: int| 0 <= i < nodes.len() ==> node_ok(nodes, i)
    &&& subtree_switches_ok(nodes, 0, Seq::empty(), Seq::empty())
}

/// An immutable, validated grammar.
pub struct Grammar {
    nodes: Vec<Cmd>,
}

impl Grammar {
    /// The command descriptors, root first.
    pub closed spec fn nodes(self) -> Seq<Cmd> {
        self.nodes@
    }

    /// Every `Grammar` that [`Grammar::new`] hands out satisfies this.
    pub open spec fn wf(self) -> bool {
        grammar_ok(self.nodes())
    }

    /// Validates a node vector and wraps it; `None` reports a structurally
    /// invalid grammar (a configuration defect, distinct from the runtime
    /// parse errors).
    #[verifier::loop_isolation(false)]
    pub fn new(nodes: Vec<Cmd>) -> (r: Option<Grammar>)
        ensures
            r is Some <==> grammar_ok(nodes@),
            r matches Some(g) ==> g.nodes() == nodes@ && g.wf(),
    {
        if nodes.len() == 0 {
            return None;
        }
        let mut i: usize = 0;
        while i < nodes.len()
            invariant
                i <= nodes.len(),
                forall|j: int| 0 <= j < i ==> node_ok(nodes@, j),
            decreases nodes.len() - i,
        {
            if !check_node(&nodes, i) {
                return None;
            }
            i = i + 1;
        }
        let empty_longs: Vec<Vec<u8>> = Vec::new();
        let empty_shorts: Vec<u8> = Vec::new();
        proof {
            assert(empty_longs.deep_view() =~= Seq::<Seq<u8>>::empty());
            assert(empty_shorts@ =~= Seq::<u8>::empty());
        }
        if !check_subtree(&nodes, 0, &empty_longs, &empty_shorts) {
            return None;
        }
        Some(Grammar { nodes })
    }

    /// How many command descriptors the grammar holds.
    pub fn len(&self) -> (r: usize)
        ensures
            r == self.nodes().len(),
    {
        self.nodes.len()
    }

    /// The descriptor of the command at `i` (the root is at 0).
    pub fn node(&self, i: usize) -> (r: &Cmd)
        requires
            i < self.nodes().len(),
        ensures
            *r == self.nodes()[i as int],
    {
        &self.nodes[i]
    }
}

/// Pairwise-distinctness of a vector of byte strings.
#[verifier::loop_isolation(false)]
fn distinct_seq(xs: &Vec<Vec<u8>>) -> (r: bool)
    ensures
        r == distinct_names(xs.deep_view()),
{
    proof {
        crate::bytes::lemma_vecs_deep_view(*xs);
    }
    let mut p: usize = 0;
    while p < xs.len()
        invariant
            p <= xs.len(),
            xs.deep_view().len() == xs@.len(),
            forall|a: int| 0 <= a < xs@.len() ==> xs.deep_view()[a] == xs@[a]@,
            forall|a: int, b: int| 0 <= a < b < xs@.len() && a < p ==> xs.deep_view()[a]
                != xs.deep_view()[b],
        decreases xs.len() - p,
    {
        let mut q: usize = p + 1;
        while q < xs.len()
            invariant
                p < q,
                q <= xs@.len(),
                p < xs.len(),
                xs.deep_view().len() == xs@.len(),
                forall|a: int| 0 <= a < xs@.len() ==> xs.deep_view()[a] == xs@[a]@,
                forall|b: int| p < b < q ==> xs.deep_view()[p as int] != xs.deep_view()[b],
            decreases xs.len() - q,
        {
            if bytes_eq(&xs[p], &xs[q]) {
                assert(xs.deep_view()[p as int] == xs.deep_view()[q as int]);
                return false;
            }
            q = q + 1;
        }
        p = p + 1;
    }
    true
}

/// Pairwise-distinctness of a byte vector.
#[verifier::loop_isolation(false)]
fn distinct_byte_vec(xs: &Vec<u8>) -> (r: bool)
    ensures
        r == distinct_bytes(xs@),
{
    let mut p: usize = 0;
    while p < xs.len()
        invariant
            p <= xs.len(),
            forall|a: int, b: int| 0 <= a < b < xs@.len() && a < p ==> xs@[a] != xs@[b],
        decreases xs.len() - p,
    {
        let mut q: usize = p + 1;
        while q < xs.len()
            invariant
                p < xs.len(),
                p < q,
                q <= xs@.len(),
                forall|b: int| p < b < q ==> xs@[p as int] != xs@[b],
            decreases xs.len() - q,
        {
            if xs[p] == xs[q] {
                return false;
            }
            q = q + 1;
        }
        p = p + 1;
    }
    true
}

/// Is `v` the reserved long name `help`?
pub fn is_help_long(v: &Vec<u8>) -> (r: bool)
    ensures
        r == (v@ == help_name()),
{
    if v.len() == 4 && v[0] == ('h' as u8) && v[1] == ('e' as u8) && v[2] == ('l' as u8) && v[3] == ('p' as u8) {
        proof {
            assert(v@ =~= help_name());
        }
        true
    } else {
        proof {
            if v@ == help_name() {
                assert(v@.len() == 4);
                assert(v@[0] == ('h' as u8) && v@[1] == ('e' as u8) && v@[2] == ('l' as u8) && v@[3] == ('p' as u8));
            }
        }
        false
    }
}

/// Does `v` satisfy [`name_ok`]?
fn check_name(v: &Vec<u8>) -> (r: bool)
    ensures
        r == name_ok(v@),
{
    v.len() > 0 && v[0] != ('-' as u8)
}

/// Does `v` satisfy [`long_ok`]?
#[verifier::loop_isolation(false)]
fn check_long(v: &Vec<u8>) -> (r: bool)
    ensures
        r == long_ok(v@),
{
    if !check_name(v) {
        return false;
    }
    if is_help_long(v) {
        return false;
    }
    let mut i: usize = 0;
    while i < v.len()
        invariant
            i <= v.len(),
            forall|j: int| 0 <= j < i ==> v@[j] != ('=' as u8),
        decreases v.len() - i,
    {
        if v[i] == ('=' as u8) {
            assert(v@.contains(('=' as u8)));
            return false;
        }
        i = i + 1;
    }
    assert(!v@.contains(('=' as u8))) by {
        if v@.contains(('=' as u8)) {
            let j = choose|j: int| 0 <= j < v@.len() && v@[j] == ('=' as u8);
        }
    }
    true
}

/// Checks [`node_ok`] for the node at `i`.
#[verifier::loop_isolation(false)]
fn check_node(nodes: &Vec<Cmd>, i: usize) -> (r: bool)
    requires
        i < nodes@.len(),
    ensures
        r == node_ok(nodes@, i as int),
{
    let c = &nodes[i];
    // children point strictly forward
    let mut k: usize = 0;
    while k < c.children.len()
        invariant
            k <= c.children@.len(),
            forall|j: int| 0 <= j < k ==> i < #[trigger] c.children@[j] < nodes@.len(),
        decreases c.children.len() - k,
    {
        let ch = c.children[k];
        if ch <= i || ch >= nodes.len() {
            proof {
                assert(nodes@[i as int].children@[k as int] == ch);
                assert(!((i as int) < nodes@[i as int].children@[k as int] < nodes@.len()));
                assert(!node_ok(nodes@, i as int));
            }
            return false;
        }
        k = k + 1;
    }
    // the default child is a child
    match c.default_child {
        Some(d) => {
            let mut found = false;
            let mut k2: usize = 0;
            while k2 < c.children.len()
                invariant
                    k2 <= c.children@.len(),
                    found == exists|j: int| 0 <= j < k2 && c.children@[j] == d,
                decreases c.children.len() - k2,
            {
                if c.children[k2] == d {
                    found = true;
                }
                k2 = k2 + 1;
            }
            if !found {
                proof {
                    assert(!c.children@.contains(d));
                }
                return false;
            } else {
                proof {
                    let j = choose|j: int| 0 <= j < c.children@.len() && c.children@[j] == d;
                    assert(c.children@.contains(d));
                }
            }
        },
        None => {},
    }
    // sibling invocation names are collision-free
    let mut all_names: Vec<Vec<u8>> = Vec::new();
    proof {
        assert(all_names.deep_view() =~= cat_names(nodes@, c.children@, 0));
    }
    let mut k3: usize = 0;
    while k3 < c.children.len()
        invariant
            k3 <= c.children@.len(),
            forall|j: int| 0 <= j < c.children@.len() ==> i < #[trigger] c.children@[j] < nodes@.len(),
            all_names.deep_view() == cat_names(nodes@, c.children@, k3 as int),
        decreases c.children.len() - k3,
    {
        let ghost before = all_names.deep_view();
        let child = &nodes[c.children[k3]];
        all_names.push(copy_bytes(&child.name));
        proof {
            crate::bytes::lemma_vecs_deep_view(all_names);
            assert(all_names.deep_view() =~= before.push(child.name@));
            assert(before.push(child.name@) =~= before + seq![child.name@]);
        }
        let mut a: usize = 0;
        while a < child.aliases.len()
            invariant
                a <= child.aliases@.len(),
                all_names.deep_view() == before + seq![child.name@] + alias_names(
                    child.aliases@,
                    a as int,
                ),
            decreases child.aliases.len() - a,
        {
            let ghost mid = all_names.deep_view();
            all_names.push(copy_bytes(&child.aliases[a]));
            proof {
                crate::bytes::lemma_vecs_deep_view(all_names);
                assert(all_names.deep_view() =~= mid.push(child.aliases@[a as int]@));
                assert(mid.push(child.aliases@[a as int]@) =~= before + seq![child.name@]
                    + alias_names(child.aliases@, a + 1));
            }
            a = a + 1;
        }
        proof {
            assert(all_names.deep_view() =~= cat_names(nodes@, c.children@, k3 + 1)) by {
                assert(names_of(nodes@[c.children@[k3 as int] as int]) == seq![child.name@]
                    + alias_names(child.aliases@, child.aliases@.len() as int));
                assert(before + seq![child.name@] + alias_names(
                    child.aliases@,
                    child.aliases@.len() as int,
                ) =~= before + (seq![child.name@] + alias_names(
                    child.aliases@,
                    child.aliases@.len() as int,
                )));
            }
        }
        k3 = k3 + 1;
    }
    if !distinct_seq(&all_names) {
        return false;
    }
    // every invocation name is usable
    if !check_name(&c.name) {
        return false;
    }
    let mut a2: usize = 0;
    while a2 < c.aliases.len()
        invariant
            a2 <= c.aliases@.len(),
            forall|j: int| 0 <= j < a2 ==> name_ok(#[trigger] c.aliases@[j]@),
        decreases c.aliases.len() - a2,
    {
        if !check_name(&c.aliases[a2]) {
            proof {
                assert(!name_ok(c.aliases@[a2 as int]@));
                assert(!node_ok(nodes@, i as int));
            }
            return false;
        }
        a2 = a2 + 1;
    }
    // positionals: usable distinct names, repeated last, optionals after all
    // required ones
    let mut j: usize = 0;
    let mut seen_optional = false;
    while j < c.positionals.len()
        invariant
            j <= c.positionals@.len(),
            forall|x: int| 0 <= x < j ==> name_ok(#[trigger] c.positionals@[x].name@),
            forall|x: int| 0 <= x < j && #[trigger] c.positionals@[x].arity == Arity::Repeated
                ==> x == c.positionals@.len() - 1,
            seen_optional == exists|x: int|
                0 <= x < j && c.positionals@[x].arity == Arity::Optional,
            forall|x: int, y: int|
                0 <= x < y < j && #[trigger] c.positionals@[x].arity == Arity::Optional
                    ==> #[trigger] c.positionals@[y].arity != Arity::Required,
        decreases c.positionals.len() - j,
    {
        let p = &c.positionals[j];
        if !check_name(&p.name) {
            proof {
                assert(!name_ok(c.positionals@[j as int].name@));
                assert(!node_ok(nodes@, i as int));
            }
            return false;
        }
        if p.arity == Arity::Repeated && j != c.positionals.len() - 1 {
            proof {
                assert(c.positionals@[j as int].arity == Arity::Repeated);
                assert(j as int != c.positionals@.len() - 1);
                assert(!node_ok(nodes@, i as int));
            }
            return false;
        }
        if p.arity == Arity::Required && seen_optional {
            proof {
                let x = choose|x: int|
                    0 <= x < j && c.positionals@[x].arity == Arity::Optional;
                assert(c.positionals@[x].arity == Arity::Optional);
                assert(c.positionals@[j as int].arity == Arity::Required);
                assert(!node_ok(nodes@, i as int));
            }
            return false;
        }
        if p.arity == Arity::Optional {
            seen_optional = true;
            proof {
                assert(c.positionals@[j as int].arity == Arity::Optional);
            }
        }
        j = j + 1;
    }
    let mut pos_names: Vec<Vec<u8>> = Vec::new();
    let mut j2: usize = 0;
    while j2 < c.positionals.len()
        invariant
            j2 <= c.positionals@.len(),
            pos_names@.len() == j2,
            forall|x: int| 0 <= x < j2 ==> pos_names.deep_view()[x]
                == #[trigger] c.positionals@[x].name@,
            pos_names.deep_view().len() == j2,
        decreases c.positionals.len() - j2,
    {
        pos_names.push(copy_bytes(&c.positionals[j2].name));
        proof {
            crate::bytes::lemma_vecs_deep_view(pos_names);
        }
        j2 = j2 + 1;
    }
    if !distinct_seq(&pos_names) {
        proof {
            let s = pos_names.deep_view();
            let (p, q) = choose|p: int, q: int| 0 <= p < q < s.len() && s[p] == s[q];
            assert(c.positionals@[p].name@ == c.positionals@[q].name@);
            assert(!node_ok(nodes@, i as int));
        }
        return false;
    }
    // switches: usable long names, no reserved short
    let mut s: usize = 0;
    while s < c.switches.len()
        invariant
            s <= c.switches@.len(),
            forall|x: int| 0 <= x < s ==> long_ok(#[trigger] c.switches@[x].long@),
            forall|x: int| 0 <= x < s ==> #[trigger] c.switches@[x].short != Some(('h' as u8)),
        decreases c.switches.len() - s,
    {
        let sw = &c.switches[s];
        if !check_long(&sw.long) {
            proof {
                assert(!long_ok(c.switches@[s as int].long@));
                assert(!node_ok(nodes@, i as int));
            }
            return false;
        }
        match sw.short {
            Some(b) => {
                if b == ('h' as u8) {
                    proof {
                        assert(c.switches@[s as int].short == Some(('h' as u8)));
                        assert(!node_ok(nodes@, i as int));
                    }
                    return false;
                }
            },
            None => {},
        }
        s = s + 1;
    }
    true
}

/// Checks [`subtree_switches_ok`] from node `i` downward, with the switch
/// names the ancestors already declared.
#[verifier::loop_isolation(false)]
fn check_subtree(nodes: &Vec<Cmd>, i: usize, longs: &Vec<Vec<u8>>, shorts: &Vec<u8>) -> (r: bool)
    requires
        i < nodes@.len(),
    ensures
        r == subtree_switches_ok(nodes@, i as int, longs.deep_view(), shorts@),
    decreases nodes@.len() - i,
{
    let c = &nodes[i];
    // extend the visible switch-name lists with this node's own
    let mut longs2: Vec<Vec<u8>> = Vec::new();
    let mut li: usize = 0;
    while li < longs.len()
        invariant
            li <= longs@.len(),
            longs2.deep_view() == longs.deep_view().subrange(0, li as int),
        decreases longs.len() - li,
    {
        let ghost before = longs2.deep_view();
        longs2.push(copy_bytes(&longs[li]));
        proof {
            crate::bytes::lemma_vecs_deep_view(longs2);
            crate::bytes::lemma_vecs_deep_view(*longs);
            assert(longs2.deep_view() =~= longs.deep_view().subrange(0, li + 1));
        }
        li = li + 1;
    }
    proof {
        assert(longs2.deep_view() =~= longs.deep_view());
    }
    let mut si: usize = 0;
    while si < c.switches.len()
        invariant
            si <= c.switches@.len(),
            longs2.deep_view() == longs.deep_view() + own_longs(c.switches@, si as int),
        decreases c.switches.len() - si,
    {
        let ghost l0 = longs2;
        let ghost before = longs2.deep_view();
        let sw = &c.switches[si];
        longs2.push(copy_bytes(&sw.long));
        proof {
            crate::bytes::lemma_vecs_deep_view(l0);
            crate::bytes::lemma_vecs_deep_view(longs2);
            let lhs = longs2.deep_view();
            let rhs = longs.deep_view() + own_longs(c.switches@, si + 1);
            let ll = longs.deep_view().len() as int;
            assert(own_longs(c.switches@, si + 1) == own_longs(c.switches@, si as int).push(
                c.switches@[si as int].long@,
            ));
            assert(lhs.len() == rhs.len());
            assert forall|j: int| 0 <= j < lhs.len() implies lhs[j] == rhs[j] by {
                assert(lhs[j] == longs2@[j]@);
                if j < l0@.len() {
                    assert(longs2@[j] == l0@[j]);
                    assert(lhs[j] == before[j]);
                    if j < ll {
                        assert(rhs[j] == longs.deep_view()[j]);
                        assert(before[j] == longs.deep_view()[j]);
                    } else {
                        assert(rhs[j] == own_longs(c.switches@, si + 1)[j - ll]);
                        assert(own_longs(c.switches@, si + 1)[j - ll] == own_longs(
                            c.switches@,
                            si as int,
                        )[j - ll]);
                        assert(before[j] == own_longs(c.switches@, si as int)[j - ll]);
                    }
                } else {
                    assert(j == l0@.len());
                    assert(lhs[j] == c.switches@[si as int].long@);
                    assert(rhs[j] == c.switches@[si as int].long@);
                }
            }
            assert(lhs =~= rhs);
        }
        si = si + 1;
    }
    let mut shorts2: Vec<u8> = Vec::new();
    crate::bytes::push_all(&mut shorts2, shorts);
    let mut si2: usize = 0;
    while si2 < c.switches.len()
        invariant
            si2 <= c.switches@.len(),
            shorts2@ == shorts@ + own_shorts(c.switches@, si2 as int),
        decreases c.switches.len() - si2,
    {
        match c.switches[si2].short {
            Some(b) => {
                shorts2.push(b);
                proof {
                    assert(shorts2@ =~= shorts@ + own_shorts(c.switches@, si2 + 1));
                }
            },
            None => {
                proof {
                    assert(shorts2@ =~= shorts@ + own_shorts(c.switches@, si2 + 1));
                }
            },
        }
        si2 = si2 + 1;
    }
    if !distinct_seq(&longs2) {
        return false;
    }
    if !distinct_byte_vec(&shorts2) {
        return false;
    }
    // descend
    let mut k: usize = 0;
    while k < c.children.len()
        invariant
            k <= c.children@.len(),
            longs2.deep_view() == longs.deep_view() + own_longs(
                c.switches@,
                c.switches@.len() as int,
            ),
            shorts2@ == shorts@ + own_shorts(c.switches@, c.switches@.len() as int),
            distinct_names(longs2.deep_view()),
            distinct_bytes(shorts2@),
            forall|j: int|
                0 <= j < k ==> (i < c.children@[j] < nodes@.len() && subtree_switches_ok(
                    nodes@,
                    #[trigger] c.children@[j] as int,
                    longs2.deep_view(),
                    shorts2@,
                )),
        decreases c.children.len() - k,
    {
        let ch = c.children[k];
        if ch <= i || ch >= nodes.len() {
            return false;
        }
        if !check_subtree(nodes, ch, &longs2, &shorts2) {
            return false;
        }
        k = k + 1;
    }
    true
}

} // verus!
