//! Orders the declarations of a protocol so that every declaration comes
//! after the declarations it references, and rejects reference cycles.
use vstd::prelude::*;
use vstd::set_lib::{lemma_int_range, lemma_len_subset, set_int_range};

use crate::ast::{
    Definition, Protocol, SpecDefinition, definition_name, definition_refs,
    extract_custom_type_identifier_name, extract_structure_subtypes, extract_union_subtypes,
    string_views,
};

verus! {

/// The index of the last declaration of `defs` named `n`, or -1 when none is.
/// Lookups by name resolve to that declaration.
pub open spec fn last_index_of(defs: Seq<SpecDefinition>, n: Seq<char>) -> int
    decreases defs.len(),
{
    if defs.len() == 0 {
        -1
    } else if definition_name(defs.last()) == n {
        defs.len() - 1
    } else {
        last_index_of(defs.drop_last(), n)
    }
}

/// Declaration `i` references the name of declaration `j`, and `j` is the
/// declaration that name resolves to.
pub open spec fn depends_on(defs: Seq<SpecDefinition>, i: int, j: int) -> bool {
    &&& 0 <= i < defs.len()
    &&& 0 <= j < defs.len()
    &&& last_index_of(defs, definition_name(defs[j])) == j
    &&& definition_refs(defs[i]).contains(definition_name(defs[j]))
}

/// A chain of at least two declarations, each depending on the next.
pub open spec fn is_dependency_path(defs: Seq<SpecDefinition>, p: Seq<int>) -> bool {
    &&& p.len() >= 2
    &&& forall|k: int| 0 <= k < p.len() - 1 ==> #[trigger] depends_on(defs, p[k], p[k + 1])
}

/// The name that declaration `d` declares resolves to the declaration at
/// this index.
pub open spec fn rep_of(defs: Seq<SpecDefinition>, d: int) -> int {
    last_index_of(defs, definition_name(defs[d]))
}

/// The name of declaration `c` lies on a reference cycle: a chain of
/// dependencies leads from a declaration of that name back to that name.
pub open spec fn on_cycle(defs: Seq<SpecDefinition>, c: int) -> bool {
    exists|p: Seq<int>|
        is_dependency_path(defs, p) && definition_name(defs[p[0]]) == definition_name(defs[c])
            && definition_name(defs[p.last()]) == definition_name(defs[c])
}

/// No two declarations share a name.
pub open spec fn has_unique_names(defs: Seq<SpecDefinition>) -> bool {
    forall|i: int, j: int|
        0 <= i < defs.len() && 0 <= j < defs.len() && i != j ==> definition_name(defs[i])
            != definition_name(defs[j])
}

pub open spec fn has_cycle(defs: Seq<SpecDefinition>) -> bool {
    exists|c: int| on_cycle(defs, c)
}

/// `out` holds declarations of `defs`, one for each name declared there, and
/// every declaration comes after the ones it references.
pub open spec fn is_resolution_of(defs: Seq<SpecDefinition>, out: Seq<SpecDefinition>) -> bool {
    &&& forall|k: int| 0 <= k < out.len() ==> defs.contains(#[trigger] out[k])
    &&& forall|k1: int, k2: int|
        0 <= k1 < out.len() && 0 <= k2 < out.len() && k1 != k2 ==> definition_name(out[k1])
            != definition_name(out[k2])
    &&& forall|i: int|
        0 <= i < defs.len() ==> exists|k: int|
            0 <= k < out.len() && definition_name(out[k]) == definition_name(
                #[trigger] defs[i],
            )
    &&& forall|k1: int, k2: int|
        0 <= k1 < out.len() && 0 <= k2 < out.len() && #[trigger] definition_refs(
            out[k2],
        ).contains(#[trigger] definition_name(out[k1])) ==> k1 < k2
}

/// Names are unique and every declaration comes after the ones it references.
pub open spec fn is_dependency_ordered(defs: Seq<SpecDefinition>) -> bool {
    &&& has_unique_names(defs)
    &&& forall|i: int, j: int|
        0 <= i < defs.len() && 0 <= j < defs.len() && #[trigger] definition_refs(
            defs[i],
        ).contains(#[trigger] definition_name(defs[j])) ==> j < i
}

pub open spec fn cycle_message(name: Seq<char>) -> Seq<char> {
    "Circular dependency detected for "@ + name
}

/// What resolving `defs` may return: an order as above, which is `defs`
/// itself when `defs` is already ordered; or the message naming a declaration
/// on a cycle.
pub open spec fn resolves(defs: Seq<SpecDefinition>, r: Result<Seq<SpecDefinition>, Seq<char>>) -> bool {
    &&& is_dependency_ordered(defs) ==> r == Ok::<Seq<SpecDefinition>, Seq<char>>(defs)
    &&& match r {
        Ok(out) => is_resolution_of(defs, out),
        Err(msg) => exists|c: int|
            0 <= c < defs.len() && on_cycle(defs, c) && msg == cycle_message(
                definition_name(defs[c]),
            ),
    }
}

pub open spec fn result_view(r: Result<Protocol, String>) -> Result<Seq<SpecDefinition>, Seq<char>> {
    match r {
        Ok(p) => Ok(p@),
        Err(s) => Err(s@),
    }
}

pub proof fn lemma_last_index_of(defs: Seq<SpecDefinition>, n: Seq<char>)
    ensures
        -1 <= last_index_of(defs, n) < defs.len(),
        last_index_of(defs, n) >= 0 ==> definition_name(defs[last_index_of(defs, n)]) == n,
        forall|i: int|
            0 <= i < defs.len() && definition_name(#[trigger] defs[i]) == n ==> i <= last_index_of(
                defs,
                n,
            ),
    decreases defs.len(),
{
    if defs.len() > 0 && definition_name(defs.last()) != n {
        lemma_last_index_of(defs.drop_last(), n);
        assert forall|i: int|
            0 <= i < defs.len() && definition_name(#[trigger] defs[i]) == n implies i
            <= last_index_of(defs, n) by {
            if i < defs.len() - 1 {
                assert(defs.drop_last()[i] == defs[i]);
            }
        }
    }
}

/// With unique names, each declaration is the one its name resolves to.
proof fn lemma_unique_names_resolve(defs: Seq<SpecDefinition>, i: int)
    requires
        0 <= i < defs.len(),
        forall|a: int, b: int|
            0 <= a < defs.len() && 0 <= b < defs.len() && a != b ==> definition_name(defs[a])
                != definition_name(defs[b]),
    ensures
        last_index_of(defs, definition_name(defs[i])) == i,
{
    lemma_last_index_of(defs, definition_name(defs[i]));
}

/// A sequence of distinct indices below `n` has at most `n` entries.
proof fn lemma_distinct_bounded(s: Seq<int>, n: int)
    requires
        0 <= n,
        s.no_duplicates(),
        forall|k: int| 0 <= k < s.len() ==> 0 <= #[trigger] s[k] < n,
    ensures
        s.len() <= n,
{
    s.unique_seq_to_set();
    {
        lemma_int_range(0, n);
        assert forall|x: int| #[trigger] s.to_set().contains(x) implies set_int_range(
            0,
            n,
        ).contains(x) by {
            assert(s.contains(x));
            let k = choose|k: int| 0 <= k < s.len() && s[k] == x;
            assert(0 <= s[k] < n);
        }
        lemma_len_subset(s.to_set(), set_int_range(0, n));
    }
}

/// Dependencies come before the declarations that reference them.
pub proof fn lemma_dependencies_first(
    defs: Seq<SpecDefinition>,
    out: Seq<SpecDefinition>,
    a: int,
    b: int,
)
    requires
        resolves(defs, Ok(out)),
        0 <= a < out.len(),
        0 <= b < out.len(),
        definition_refs(out[a]).contains(definition_name(out[b])),
    ensures
        b < a,
{
}

/// Resolving an order that resolution produced gives that order back.
pub proof fn lemma_resolution_idempotent(
    defs: Seq<SpecDefinition>,
    out: Seq<SpecDefinition>,
    again: Result<Seq<SpecDefinition>, Seq<char>>,
)
    requires
        resolves(defs, Ok(out)),
        resolves(out, again),
    ensures
        again == Ok::<Seq<SpecDefinition>, Seq<char>>(out),
{
    assert(is_dependency_ordered(out));
}

spec fn position_of(defs: Seq<SpecDefinition>, out: Seq<SpecDefinition>, x: int) -> int {
    choose|k: int| 0 <= k < out.len() && definition_name(out[k]) == definition_name(defs[x])
}

proof fn lemma_path_descends(
    defs: Seq<SpecDefinition>,
    out: Seq<SpecDefinition>,
    p: Seq<int>,
    m: int,
)
    requires
        has_unique_names(defs),
        is_resolution_of(defs, out),
        is_dependency_path(defs, p),
        0 <= m < p.len() - 1,
    ensures
        0 <= position_of(defs, out, p[m + 1]) < out.len(),
        out[position_of(defs, out, p[m + 1])] == defs[p[m + 1]],
        m > 0 ==> position_of(defs, out, p[m + 1]) < position_of(defs, out, p[m]),
    decreases m,
{
    let x = p[m];
    let y = p[m + 1];
    assert(depends_on(defs, x, y));
    assert(exists|k: int|
        0 <= k < out.len() && definition_name(out[k]) == definition_name(#[trigger] defs[y]));
    let ky = position_of(defs, out, y);
    assert(defs.contains(out[ky]));
    let iy = choose|iy: int| 0 <= iy < defs.len() && defs[iy] == out[ky];
    if m > 0 {
        lemma_path_descends(defs, out, p, m - 1);
        let kx = position_of(defs, out, x);
        assert(out[kx] == defs[x]);
        assert(definition_refs(out[kx]).contains(definition_name(out[ky])));
    }
}

/// For unique names, a resolution exists only for a protocol without
/// reference cycles.
pub proof fn lemma_resolution_acyclic(defs: Seq<SpecDefinition>, out: Seq<SpecDefinition>)
    requires
        has_unique_names(defs),
        is_resolution_of(defs, out),
    ensures
        !has_cycle(defs),
{
    if has_cycle(defs) {
        let c = choose|c: int| on_cycle(defs, c);
        let p = choose|p: Seq<int>|
            is_dependency_path(defs, p) && definition_name(defs[p[0]]) == definition_name(defs[c])
                && definition_name(defs[p.last()]) == definition_name(defs[c]);
        let n = p.len();
        assert(is_dependency_path(defs, p));
        let first: int = 0;
        let last: int = n - 2;
        assert(depends_on(defs, p[first], p[first + 1]));
        assert(depends_on(defs, p[last], p[last + 1]));
        assert(p[0] == p.last());
        lemma_path_descends(defs, out, p, n - 2);
        lemma_path_descends(defs, out, p, 0);
        let k0 = position_of(defs, out, p[0]);
        let k1 = position_of(defs, out, p[1]);
        assert(depends_on(defs, p[0], p[1]));
        assert(definition_refs(out[k0]).contains(definition_name(out[k1])));
        if n > 2 {
            lemma_path_chain(defs, out, p, n - 2);
        }
    }
}

proof fn lemma_path_chain(defs: Seq<SpecDefinition>, out: Seq<SpecDefinition>, p: Seq<int>, m: int)
    requires
        has_unique_names(defs),
        is_resolution_of(defs, out),
        is_dependency_path(defs, p),
        1 <= m < p.len() - 1,
    ensures
        position_of(defs, out, p[m + 1]) < position_of(defs, out, p[1]),
    decreases m,
{
    lemma_path_descends(defs, out, p, m);
    if m > 1 {
        lemma_path_chain(defs, out, p, m - 1);
    }
}

/// When no two declarations share a name, resolution fails exactly on the
/// protocols that hold a reference cycle, and then names a declaration on one.
pub proof fn lemma_cycle_detection(
    defs: Seq<SpecDefinition>,
    r: Result<Seq<SpecDefinition>, Seq<char>>,
)
    requires
        has_unique_names(defs),
        resolves(defs, r),
    ensures
        r is Err <==> has_cycle(defs),
{
    match r {
        Ok(out) => lemma_resolution_acyclic(defs, out),
        Err(_) => {},
    }
}

/// The names a declaration references, in order.
fn definition_subtypes(def: &Definition) -> (r: Vec<String>)
    ensures
        string_views(r@) == definition_refs(def@),
{
    match def {
        Definition::Enumeration(_) => Vec::new(),
        Definition::Structure(s) => extract_structure_subtypes(s),
        Definition::Union(u) => extract_union_subtypes(u),
        Definition::Type(t) => {
            let mut names: Vec<String> = Vec::new();
            if let Some(n) = extract_custom_type_identifier_name(&t.typ) {
                names.push(n);
            }
            assert(string_views(names@) =~= definition_refs(def@));
            names
        },
    }
}

/// The index of the declaration that `name` resolves to.
fn find_definition(protocol: &Protocol, name: &String) -> (r: Option<usize>)
    ensures
        match r {
            Some(j) => j as int == last_index_of(protocol@, name@),
            None => last_index_of(protocol@, name@) == -1,
        },
{
    let ghost defs = protocol@;
    let mut j: usize = protocol.definitions.len();
    assert(defs.subrange(0, j as int) =~= defs);
    while j > 0
        invariant
            j <= protocol.definitions.len(),
            defs == protocol@,
            last_index_of(defs, name@) == last_index_of(defs.subrange(0, j as int), name@),
        decreases j,
    {
        let ghost prefix = defs.subrange(0, j as int);
        assert(prefix.drop_last() == defs.subrange(0, j - 1));
        assert(prefix.last() == protocol.definitions@[j - 1]@);
        let id = protocol.definitions[j - 1].identifier();
        if id.name == *name {
            return Some(j - 1);
        }
        j = j - 1;
    }
    None
}

/// The progress of the depth-first traversal at one declaration.
#[derive(PartialEq, Eq, Structural, Clone, Copy)]
pub enum Mark {
    Unvisited,
    InProgress,
    Done,
}


/// The declaration a name resolves to has that name, comes no earlier than
/// any declaration of it, and resolves to itself.
proof fn lemma_rep(defs: Seq<SpecDefinition>, i: int)
    requires
        0 <= i < defs.len(),
    ensures
        i <= rep_of(defs, i) < defs.len(),
        definition_name(defs[rep_of(defs, i)]) == definition_name(defs[i]),
        rep_of(defs, rep_of(defs, i)) == rep_of(defs, i),
{
    lemma_last_index_of(defs, definition_name(defs[i]));
}

/// The depth-first visit of declaration `i`, `depth` visits deep. Marks are
/// kept per name, at the declaration the name resolves to: a name in
/// progress closes a cycle and fails; a finished one is left as it is;
/// otherwise the declarations `i` references are visited in order, and then
/// `i` is finished and appended to `order`.
pub open spec fn dfs_visit(
    defs: Seq<SpecDefinition>,
    i: int,
    depth: int,
    marks: Seq<Mark>,
    order: Seq<usize>,
) -> Result<(Seq<Mark>, Seq<usize>), int>
    decreases defs.len() - depth, 0int, 0int,
{
    let r = rep_of(defs, i);
    if !(0 <= i < defs.len()) || !(0 <= r < marks.len()) || marks[r] == Mark::InProgress {
        Err(r)
    } else if marks[r] == Mark::Done {
        Ok((marks, order))
    } else if depth >= defs.len() {
        Err(r)
    } else {
        match dfs_visit_refs(
            defs,
            definition_refs(defs[i]),
            0,
            depth + 1,
            marks.update(r, Mark::InProgress),
            order,
        ) {
            Err(c) => Err(c),
            Ok((m, o)) => Ok((m.update(r, Mark::Done), o.push(i as usize))),
        }
    }
}

/// Visits, from the `k`-th on, the declarations that `names` resolve to;
/// names that resolve to none are skipped.
pub open spec fn dfs_visit_refs(
    defs: Seq<SpecDefinition>,
    names: Seq<Seq<char>>,
    k: int,
    depth: int,
    marks: Seq<Mark>,
    order: Seq<usize>,
) -> Result<(Seq<Mark>, Seq<usize>), int>
    decreases defs.len() - depth, 1int, names.len() - k,
{
    if k < 0 || k >= names.len() {
        Ok((marks, order))
    } else {
        let j = last_index_of(defs, names[k]);
        if j < 0 {
            dfs_visit_refs(defs, names, k + 1, depth, marks, order)
        } else {
            match dfs_visit(defs, j, depth, marks, order) {
                Err(c) => Err(c),
                Ok((m, o)) => dfs_visit_refs(defs, names, k + 1, depth, m, o),
            }
        }
    }
}

/// Visits, from the `idx`-th on and in the order written, each declaration
/// whose name is not finished yet.
pub open spec fn dfs_sweep(
    defs: Seq<SpecDefinition>,
    idx: int,
    marks: Seq<Mark>,
    order: Seq<usize>,
) -> Result<Seq<usize>, int>
    decreases defs.len() - idx,
{
    if idx < 0 || idx >= defs.len() {
        Ok(order)
    } else {
        let r = rep_of(defs, idx);
        if 0 <= r < marks.len() && marks[r] != Mark::Done {
            match dfs_visit(defs, idx, 0, marks, order) {
                Err(c) => Err(c),
                Ok((m, o)) => dfs_sweep(defs, idx + 1, m, o),
            }
        } else {
            dfs_sweep(defs, idx + 1, marks, order)
        }
    }
}

/// The indices of the declarations in the order the depth-first traversal
/// finishes them, or the index of the declaration at which a cycle closed.
pub open spec fn dependency_order(defs: Seq<SpecDefinition>) -> Result<Seq<usize>, int> {
    dfs_sweep(defs, 0, Seq::new(defs.len(), |k: int| Mark::Unvisited), Seq::empty())
}

/// The result of resolving `defs`: the declarations in dependency order, or
/// the message naming where a cycle closed.
pub open spec fn resolution(defs: Seq<SpecDefinition>) -> Result<Seq<SpecDefinition>, Seq<char>> {
    match dependency_order(defs) {
        Ok(o) => Ok(Seq::new(o.len(), |k: int| defs[o[k] as int])),
        Err(c) => Err(cycle_message(definition_name(defs[c]))),
    }
}

/// The traversal's bookkeeping. Marks sit at the declarations names resolve
/// to. `order` lists the finished declarations, one per name, each after its
/// dependencies; `stack` the ones in progress, each depending on the next.
spec fn traversal_ok(
    defs: Seq<SpecDefinition>,
    marks: Seq<Mark>,
    order: Seq<usize>,
    stack: Seq<int>,
) -> bool {
    &&& marks.len() == defs.len()
    &&& forall|k: int|
        0 <= k < order.len() ==> #[trigger] order[k] < defs.len() && marks[rep_of(
            defs,
            order[k] as int,
        )] == Mark::Done
    &&& forall|a: int, b: int|
        0 <= a < order.len() && 0 <= b < order.len() && a != b ==> rep_of(defs, order[a] as int)
            != rep_of(defs, order[b] as int)
    &&& forall|x: int|
        0 <= x < marks.len() && #[trigger] marks[x] == Mark::Done ==> exists|k: int|
            0 <= k < order.len() && rep_of(defs, order[k] as int) == x
    &&& forall|x: int|
        0 <= x < marks.len() && #[trigger] marks[x] != Mark::Unvisited ==> rep_of(defs, x) == x
    &&& forall|k: int, y: int|
        0 <= k < order.len() && #[trigger] depends_on(defs, order[k] as int, y) ==> marks[y]
            == Mark::Done
    &&& forall|a: int, b: int|
        0 <= a < order.len() && 0 <= b < order.len() && #[trigger] depends_on(
            defs,
            order[b] as int,
            rep_of(defs, order[a] as int),
        ) ==> a < b
    &&& forall|k: int| 0 <= k < stack.len() ==> 0 <= #[trigger] stack[k] < defs.len()
    &&& forall|k: int| 1 <= k < stack.len() ==> rep_of(defs, #[trigger] stack[k]) == stack[k]
    &&& forall|k1: int, k2: int|
        0 <= k1 < stack.len() && 0 <= k2 < stack.len() && k1 != k2 ==> rep_of(defs, stack[k1])
            != rep_of(defs, stack[k2])
    &&& forall|x: int|
        0 <= x < marks.len() ==> (#[trigger] marks[x] == Mark::InProgress <==> exists|k: int|
            0 <= k < stack.len() && rep_of(defs, stack[k]) == x)
    &&& forall|k: int|
        0 <= k < stack.len() - 1 ==> #[trigger] depends_on(defs, stack[k], stack[k + 1])
}

/// Visits declaration `i`, whose name resolves to `r`, and, first, everything
/// it depends on; on success the name is finished. Fails with a declaration
/// whose name is on a cycle.
fn visit(
    protocol: &Protocol,
    i: usize,
    r: usize,
    marks: &mut Vec<Mark>,
    order: &mut Vec<usize>,
    Ghost(stack): Ghost<Seq<int>>,
) -> (res: Result<(), usize>)
    requires
        i < protocol.definitions.len(),
        r as int == rep_of(protocol@, i as int),
        traversal_ok(protocol@, old(marks)@, old(order)@, stack),
        stack.len() > 0 ==> depends_on(protocol@, stack.last(), i as int),
        stack.len() > 0 ==> r == i,
    ensures
        match res {
            Ok(()) => {
                &&& traversal_ok(protocol@, final(marks)@, final(order)@, stack)
                &&& final(marks)@[r as int] == Mark::Done
                &&& final(order)@.len() >= old(order)@.len()
                &&& final(order)@.subrange(0, old(order)@.len() as int) == old(order)@
            },
            Err(c) => c < protocol.definitions.len() && on_cycle(protocol@, c as int),
        },
        match res {
            Ok(()) => dfs_visit(protocol@, i as int, stack.len() as int, old(marks)@, old(order)@)
                == Ok::<(Seq<Mark>, Seq<usize>), int>((final(marks)@, final(order)@)),
            Err(c) => dfs_visit(protocol@, i as int, stack.len() as int, old(marks)@, old(order)@)
                == Err::<(Seq<Mark>, Seq<usize>), int>(c as int),
        },
        res is Ok ==> forall|x: int|
            0 <= x < old(marks)@.len() && old(marks)@[x] == Mark::Done ==> #[trigger] final(marks)@[x]
                == Mark::Done,
        old(marks)@[r as int] == Mark::Done ==> res is Ok && final(marks)@ == old(marks)@
            && final(order)@ == old(order)@,
        old(marks)@[r as int] == Mark::Unvisited && (forall|j: int|
            depends_on(protocol@, i as int, j) ==> old(marks)@[j] == Mark::Done) ==> res is Ok
            && final(marks)@ == old(marks)@.update(r as int, Mark::Done) && final(order)@ == old(
            order,
        )@.push(i),
    decreases protocol.definitions.len() - stack.len(),
{
    let ghost defs = protocol@;
    proof {
        lemma_rep(defs, i as int);
    }
    if marks[r] == Mark::InProgress {
        proof {
            let m = choose|m: int| 0 <= m < stack.len() && rep_of(defs, stack[m]) == r as int;
            let p = stack.subrange(m, stack.len() as int).push(i as int);
            assert forall|k: int| 0 <= k < p.len() - 1 implies #[trigger] depends_on(
                defs,
                p[k],
                p[k + 1],
            ) by {
                if k < p.len() - 2 {
                    assert(depends_on(defs, stack[m + k], stack[m + k + 1]));
                }
            }
            assert(is_dependency_path(defs, p));
            lemma_rep(defs, stack[m]);
            assert(p[0] == stack[m]);
            assert(p.last() == i as int);
            assert(on_cycle(defs, r as int));
        }
        return Err(r);
    }
    if marks[r] == Mark::Done {
        return Ok(());
    }
    let ghost marks0 = marks@;
    let ghost order0 = order@;
    let ghost all_done = forall|j: int| depends_on(defs, i as int, j) ==> marks0[j] == Mark::Done;
    marks[r] = Mark::InProgress;
    let ghost inner = stack.push(i as int);
    let ghost reps = inner.map_values(|x: int| rep_of(defs, x));
    proof {
        assert forall|k: int| 0 <= k < stack.len() implies rep_of(defs, #[trigger] stack[k])
            != r as int by {
            if rep_of(defs, stack[k]) == r as int {
                assert(marks0[r as int] == Mark::InProgress);
            }
        }
        assert forall|x: int| 0 <= x < marks@.len() implies (#[trigger] marks@[x]
            == Mark::InProgress <==> exists|k: int|
            0 <= k < inner.len() && rep_of(defs, inner[k]) == x) by {
            if x != r {
                assert(marks@[x] == marks0[x]);
                if exists|k: int| 0 <= k < inner.len() && rep_of(defs, inner[k]) == x {
                    let k = choose|k: int| 0 <= k < inner.len() && rep_of(defs, inner[k]) == x;
                    assert(k < stack.len());
                    assert(inner[k] == stack[k]);
                }
                if marks0[x] == Mark::InProgress {
                    let k = choose|k: int| 0 <= k < stack.len() && rep_of(defs, stack[k]) == x;
                    assert(inner[k] == stack[k]);
                }
            } else {
                assert(inner[stack.len() as int] == i as int);
            }
        }
        assert forall|k1: int, k2: int|
            0 <= k1 < inner.len() && 0 <= k2 < inner.len() && k1 != k2 implies rep_of(
            defs,
            inner[k1],
        ) != rep_of(defs, inner[k2]) by {
            if k1 < stack.len() && k2 < stack.len() {
                assert(inner[k1] == stack[k1] && inner[k2] == stack[k2]);
            } else if k1 < stack.len() {
                assert(inner[k1] == stack[k1]);
            } else {
                assert(inner[k2] == stack[k2]);
            }
        }
        assert forall|k: int| 1 <= k < inner.len() implies rep_of(defs, #[trigger] inner[k])
            == inner[k] by {
            if k < stack.len() {
                assert(inner[k] == stack[k]);
            }
        }
        assert forall|k: int| 0 <= k < inner.len() implies 0 <= #[trigger] inner[k] < defs.len() by {
            if k < stack.len() {
                assert(inner[k] == stack[k]);
            }
        }
        assert forall|k: int| 0 <= k < inner.len() - 1 implies #[trigger] depends_on(
            defs,
            inner[k],
            inner[k + 1],
        ) by {
            if k < inner.len() - 2 {
                assert(depends_on(defs, stack[k], stack[k + 1]));
            }
        }
        assert forall|k: int| 0 <= k < reps.len() implies 0 <= #[trigger] reps[k] < defs.len() by {
            lemma_rep(defs, inner[k]);
        }
        assert(reps.no_duplicates()) by {
            assert forall|k1: int, k2: int|
                0 <= k1 < reps.len() && 0 <= k2 < reps.len() && k1 != k2 implies reps[k1]
                != reps[k2] by {}
        }
        lemma_distinct_bounded(reps, defs.len() as int);
        assert forall|q: int| 0 <= q < order@.len() implies #[trigger] order@[q] < defs.len()
            && marks@[rep_of(defs, order@[q] as int)] == Mark::Done by {
            lemma_rep(defs, order@[q] as int);
            assert(marks0[rep_of(defs, order@[q] as int)] == Mark::Done);
        }
        assert forall|x: int| 0 <= x < marks@.len() && #[trigger] marks@[x] == Mark::Done implies exists|
            q: int,
        | 0 <= q < order@.len() && rep_of(defs, order@[q] as int) == x by {
            assert(marks0[x] == Mark::Done);
        }
        assert forall|x: int| 0 <= x < marks@.len() && #[trigger] marks@[x] != Mark::Unvisited implies rep_of(
            defs,
            x,
        ) == x by {
            if x != r {
                assert(marks0[x] != Mark::Unvisited);
            }
        }
        assert forall|q: int, y: int|
            0 <= q < order@.len() && #[trigger] depends_on(defs, order@[q] as int, y) implies marks@[y]
            == Mark::Done by {
            assert(marks0[y] == Mark::Done);
        }
        assert(traversal_ok(defs, marks@, order@, inner));
    }
    let refs = definition_subtypes(&protocol.definitions[i]);
    let ghost names = string_views(refs@);
    let mut k: usize = 0;
    while k < refs.len()
        invariant
            defs == protocol@,
            i < defs.len(),
            r as int == rep_of(defs, i as int),
            0 <= r < defs.len(),
            names == definition_refs(defs[i as int]),
            names == string_views(refs@),
            names.len() == refs@.len(),
            inner == stack.push(i as int),
            marks0 == old(marks)@,
            order0 == old(order)@,
            marks0.len() == defs.len(),
            marks0[r as int] == Mark::Unvisited,
            all_done == (forall|j: int|
                depends_on(defs, i as int, j) ==> marks0[j] == Mark::Done),
            forall|x: int|
                0 <= x < marks0.len() && marks0[x] == Mark::Done ==> #[trigger] marks@[x]
                    == Mark::Done,
            k <= refs.len(),
            traversal_ok(defs, marks@, order@, inner),
            marks@[r as int] == Mark::InProgress,
            inner.len() <= defs.len(),
            inner.last() == i as int,
            order@.len() >= order0.len(),
            order@.subrange(0, order0.len() as int) == order0,
            forall|l: int|
                0 <= l < k && last_index_of(defs, #[trigger] names[l]) >= 0 ==> marks@[last_index_of(
                    defs,
                    names[l],
                )] == Mark::Done,
            all_done ==> marks@ == marks0.update(r as int, Mark::InProgress) && order@ == order0,
            stack.len() < defs.len(),
            dfs_visit(defs, i as int, stack.len() as int, marks0, order0) == match dfs_visit_refs(
                defs,
                names,
                k as int,
                inner.len() as int,
                marks@,
                order@,
            ) {
                Err(c) => Err(c),
                Ok((m, o)) => Ok((m.update(r as int, Mark::Done), o.push(i))),
            },
        decreases refs.len() - k,
    {
        let ghost n = names[k as int];
        let ghost marks_start = marks@;
        assert(refs@[k as int]@ == n);
        match find_definition(protocol, &refs[k]) {
            Some(j) => {
                proof {
                    lemma_last_index_of(defs, n);
                    assert(names.contains(n));
                    assert(depends_on(defs, i as int, j as int));
                    lemma_rep(defs, j as int);
                }
                let ghost order1 = order@;
                let ghost marks1 = marks@;
                assert(all_done ==> marks0[j as int] == Mark::Done);
                assert(all_done ==> j != r);
                assert(all_done ==> marks1[j as int] == Mark::Done);
                match visit(protocol, j, j, marks, order, Ghost(inner)) {
                    Err(c) => {
                        assert(!all_done);
                        return Err(c);
                    },
                    Ok(()) => {},
                }
                assert(marks@[j as int] == Mark::Done);
                assert(all_done ==> marks@ == marks1);
                assert(forall|x: int|
                    0 <= x < marks1.len() && marks1[x] == Mark::Done ==> #[trigger] marks@[x]
                        == Mark::Done);
                assert(order@.subrange(0, order0.len() as int) == order1.subrange(
                    0,
                    order0.len() as int,
                )) by {
                    assert(order@.subrange(0, order1.len() as int) == order1);
                }
            },
            None => {},
        }
        assert forall|l: int|
            0 <= l < k + 1 && last_index_of(defs, #[trigger] names[l]) >= 0 implies marks@[last_index_of(
            defs,
            names[l],
        )] == Mark::Done by {
            lemma_last_index_of(defs, names[l]);
            if l < k {
                assert(marks_start[last_index_of(defs, names[l])] == Mark::Done);
            }
        }
        k = k + 1;
    }
    proof {
        assert forall|j: int| depends_on(defs, i as int, j) implies marks@[j] == Mark::Done by {
            let n = definition_name(defs[j]);
            let l = choose|l: int| 0 <= l < names.len() && names[l] == n;
            assert(last_index_of(defs, names[l]) == j);
        }
    }
    let ghost marks1 = marks@;
    let ghost order1 = order@;
    marks[r] = Mark::Done;
    order.push(i);
    proof {
        assert(order@[order1.len() as int] == i);
        assert forall|q: int| 0 <= q < order1.len() implies rep_of(defs, #[trigger] order1[q] as int)
            != r as int by {
            assert(marks1[rep_of(defs, order1[q] as int)] == Mark::Done);
        }
        assert forall|q: int|
            0 <= q < order@.len() implies #[trigger] order@[q] < defs.len() && marks@[rep_of(
            defs,
            order@[q] as int,
        )] == Mark::Done by {
            if q < order1.len() {
                assert(order@[q] == order1[q]);
                lemma_rep(defs, order1[q] as int);
            }
        }
        assert forall|a: int, b: int|
            0 <= a < order@.len() && 0 <= b < order@.len() && a != b implies rep_of(
            defs,
            order@[a] as int,
        ) != rep_of(defs, order@[b] as int) by {
            if a < order1.len() {
                assert(order@[a] == order1[a]);
            }
            if b < order1.len() {
                assert(order@[b] == order1[b]);
            }
        }
        assert forall|x: int| 0 <= x < marks@.len() && #[trigger] marks@[x] == Mark::Done implies exists|
            q: int,
        | 0 <= q < order@.len() && rep_of(defs, order@[q] as int) == x by {
            if x != r {
                assert(marks1[x] == Mark::Done);
                let q = choose|q: int|
                    0 <= q < order1.len() && rep_of(defs, order1[q] as int) == x;
                assert(order@[q] == order1[q]);
            } else {
                assert(rep_of(defs, order@[order1.len() as int] as int) == x);
            }
        }
        assert forall|x: int| 0 <= x < marks@.len() && #[trigger] marks@[x] != Mark::Unvisited implies rep_of(
            defs,
            x,
        ) == x by {
            if x != r {
                assert(marks1[x] != Mark::Unvisited);
            }
        }
        assert forall|q: int, y: int|
            0 <= q < order@.len() && #[trigger] depends_on(defs, order@[q] as int, y) implies marks@[y]
            == Mark::Done by {
            if q < order1.len() {
                assert(order@[q] == order1[q]);
                assert(marks1[y] == Mark::Done);
            } else {
                assert(marks1[y] == Mark::Done);
            }
        }
        assert forall|a: int, b: int|
            0 <= a < order@.len() && 0 <= b < order@.len() && #[trigger] depends_on(
                defs,
                order@[b] as int,
                rep_of(defs, order@[a] as int),
            ) implies a < b by {
            if a == order1.len() && b < order1.len() {
                assert(order@[b] == order1[b]);
                assert(marks1[rep_of(defs, order1[b] as int)] == Mark::Done);
                assert(marks1[r as int] == Mark::Done);
            } else if a < order1.len() && b < order1.len() {
                assert(order1[a] == order@[a] && order1[b] == order@[b]);
            }
        }
        assert forall|x: int| 0 <= x < marks@.len() implies (#[trigger] marks@[x]
            == Mark::InProgress <==> exists|k: int|
            0 <= k < stack.len() && rep_of(defs, stack[k]) == x) by {
            if x != r {
                assert(marks@[x] == marks1[x]);
                if exists|k: int| 0 <= k < inner.len() && rep_of(defs, inner[k]) == x {
                    let k = choose|k: int| 0 <= k < inner.len() && rep_of(defs, inner[k]) == x;
                    assert(k < stack.len());
                    assert(inner[k] == stack[k]);
                }
                if exists|k: int| 0 <= k < stack.len() && rep_of(defs, stack[k]) == x {
                    let k = choose|k: int| 0 <= k < stack.len() && rep_of(defs, stack[k]) == x;
                    assert(inner[k] == stack[k]);
                }
            } else {
                if exists|k: int| 0 <= k < stack.len() && rep_of(defs, stack[k]) == x {
                    let k = choose|k: int| 0 <= k < stack.len() && rep_of(defs, stack[k]) == x;
                    assert(inner[k] == stack[k]);
                    assert(rep_of(defs, inner[stack.len() as int]) == x);
                }
            }
        }
        assert forall|k1: int, k2: int|
            0 <= k1 < stack.len() && 0 <= k2 < stack.len() && k1 != k2 implies rep_of(
            defs,
            stack[k1],
        ) != rep_of(defs, stack[k2]) by {
            assert(inner[k1] == stack[k1] && inner[k2] == stack[k2]);
        }
        assert forall|k: int| 1 <= k < stack.len() implies rep_of(defs, #[trigger] stack[k])
            == stack[k] by {
            assert(inner[k] == stack[k]);
        }
        assert forall|k: int| 0 <= k < stack.len() - 1 implies #[trigger] depends_on(
            defs,
            stack[k],
            stack[k + 1],
        ) by {
            assert(inner[k] == stack[k] && inner[k + 1] == stack[k + 1]);
        }
        assert(order@.subrange(0, order0.len() as int) == order1.subrange(0, order0.len() as int));
        if all_done {
            assert(marks@ =~= marks0.update(r as int, Mark::Done));
        }
    }
    Ok(())
}

/// Orders the declarations so that each comes after the declarations it
/// references: each declaration whose name is not finished yet is visited
/// depth first, in the order written, and a reference resolves to the last
/// declaration of its name. Fails naming a declaration on a reference cycle.
pub fn sort_protocol_by_dependencies(protocol: &Protocol) -> (r: Result<Protocol, String>)
    ensures
        result_view(r) == resolution(protocol@),
        resolves(protocol@, result_view(r)),
{
    let ghost defs = protocol@;
    let n = protocol.definitions.len();
    let mut marks: Vec<Mark> = Vec::new();
    while marks.len() < n
        invariant
            marks@.len() <= n,
            forall|x: int| 0 <= x < marks@.len() ==> marks@[x] == Mark::Unvisited,
        decreases n - marks@.len(),
    {
        marks.push(Mark::Unvisited);
    }
    let mut order: Vec<usize> = Vec::new();
    assert(marks@ =~= Seq::new(defs.len(), |k: int| Mark::Unvisited));
    assert(order@ =~= Seq::<usize>::empty());
    let ghost ordered = is_dependency_ordered(defs);
    let mut idx: usize = 0;
    while idx < n
        invariant
            defs == protocol@,
            n == defs.len(),
            idx <= n,
            ordered == is_dependency_ordered(defs),
            dependency_order(defs) == dfs_sweep(defs, idx as int, marks@, order@),
            traversal_ok(defs, marks@, order@, Seq::empty()),
            forall|x: int| 0 <= x < idx ==> marks@[rep_of(defs, x)] == Mark::Done,
            ordered ==> order@.len() == idx,
            ordered ==> forall|k: int| 0 <= k < idx ==> order@[k] == k,
            ordered ==> forall|x: int| idx <= x < n ==> marks@[x] == Mark::Unvisited,
        decreases n - idx,
    {
        let id = protocol.definitions[idx].identifier();
        let ghost marks_start = marks@;
        let ghost order_start = order@;
        proof {
            lemma_rep(defs, idx as int);
            if ordered {
                lemma_unique_names_resolve(defs, idx as int);
            }
        }
        if let Some(rep) = find_definition(protocol, &id.name) {
            proof {
                if ordered {
                    assert(rep == idx);
                    assert forall|j: int| depends_on(defs, idx as int, j) implies marks@[j]
                        == Mark::Done by {
                        assert(j < idx);
                        assert(order@[j] == j);
                        assert(rep_of(defs, j) == j);
                    }
                }
            }
            if marks[rep] != Mark::Done {
                match visit(protocol, idx, rep, &mut marks, &mut order, Ghost(Seq::empty())) {
                    Err(c) => {
                        let mut msg = String::from_str("Circular dependency detected for ");
                        let name = protocol.definitions[c].identifier();
                        msg.append(name.name.as_str());
                        proof {
                            if ordered {
                                assert(false);
                            }
                        }
                        return Err(msg);
                    },
                    Ok(()) => {},
                }
                proof {
                    if ordered {
                        assert(order@ == order_start.push(idx));
                        assert forall|k: int| 0 <= k < idx + 1 implies order@[k] == k by {
                            if k < idx {
                                assert(order_start[k] == k);
                            }
                        }
                    }
                }
            }
        }
        proof {
            assert forall|x: int| 0 <= x < idx + 1 implies marks@[rep_of(defs, x)]
                == Mark::Done by {
                lemma_rep(defs, x);
                if x < idx {
                    assert(marks_start[rep_of(defs, x)] == Mark::Done);
                }
            }
        }
        idx = idx + 1;
    }
    assert(dependency_order(defs) == Ok::<Seq<usize>, int>(order@));
    let mut definitions: Vec<Definition> = Vec::new();
    let mut k: usize = 0;
    while k < order.len()
        invariant
            defs == protocol@,
            dependency_order(defs) == Ok::<Seq<usize>, int>(order@),
            k <= order@.len(),
            definitions@.len() == k,
            traversal_ok(defs, marks@, order@, Seq::empty()),
            forall|l: int| 0 <= l < k ==> definitions@[l]@ == defs[order@[l] as int],
        decreases order@.len() - k,
    {
        definitions.push(protocol.definitions[order[k]].duplicate());
        k = k + 1;
    }
    let out = Protocol { definitions };
    proof {
        let o = out@;
        assert forall|q: int| 0 <= q < o.len() implies o[q] == defs[order@[q] as int] by {}
        assert(o =~= Seq::new(order@.len(), |q: int| defs[order@[q] as int]));
        assert forall|q: int| 0 <= q < o.len() implies defs.contains(#[trigger] o[q]) by {
            assert(o[q] == defs[order@[q] as int]);
        }
        assert forall|k1: int, k2: int|
            0 <= k1 < o.len() && 0 <= k2 < o.len() && k1 != k2 implies definition_name(o[k1])
            != definition_name(o[k2]) by {
            assert(o[k1] == defs[order@[k1] as int]);
            assert(o[k2] == defs[order@[k2] as int]);
        }
        assert forall|i: int| 0 <= i < defs.len() implies exists|q: int|
            0 <= q < o.len() && definition_name(o[q]) == definition_name(#[trigger] defs[i]) by {
            lemma_rep(defs, i);
            let j = rep_of(defs, i);
            assert(marks@[j] == Mark::Done);
            let q = choose|q: int| 0 <= q < order@.len() && rep_of(defs, order@[q] as int) == j;
            lemma_rep(defs, order@[q] as int);
            assert(o[q] == defs[order@[q] as int]);
        }
        assert forall|k1: int, k2: int|
            0 <= k1 < o.len() && 0 <= k2 < o.len() && #[trigger] definition_refs(o[k2]).contains(
                #[trigger] definition_name(o[k1]),
            ) implies k1 < k2 by {
            assert(o[k1] == defs[order@[k1] as int]);
            assert(o[k2] == defs[order@[k2] as int]);
            lemma_rep(defs, order@[k1] as int);
            assert(depends_on(defs, order@[k2] as int, rep_of(defs, order@[k1] as int)));
        }
        if ordered {
            assert(o =~= defs);
        }
    }
    Ok(out)
}

} // verus!
