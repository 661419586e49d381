//! Import cycles: a depth-first walk of the import graph that reports each
//! import leading back to a module on the walk's current path.

use vstd::prelude::*;
use vstd::string::StringExecFns;

use crate::resolver::{distinct_ids, join_texts, joined, kind_code, ModuleGraph, ModuleUnit, ResolveError, ResolveErrorKind};
use crate::ir::consts::{bytes_less, utf8};
use crate::text::{lists, sorted_positions, text_eq, text_key};

verus! {

broadcast use vstd::std_specs::vec::group_vec_axioms;

/// Where the walk stands with a module: not reached, on the current path, finished.
#[derive(Clone, Copy, PartialEq, Eq, Structural)]
pub enum Color {
    White,
    Gray,
    Black,
}

/// Module `j` is imported by module `i`: some import of `i` is `j`'s id.
pub open spec fn imports_module(g: Seq<ModuleUnit>, i: int, j: int) -> bool {
    &&& 0 <= i < g.len()
    &&& 0 <= j < g.len()
    &&& exists|k: int| 0 <= k < g[i].imports@.len() && #[trigger] g[i].imports@[k]@ == g[j].id@
}

/// `c` is a chain of imports, each module importing the next, that ends
/// where it starts.
pub open spec fn is_cycle(g: Seq<ModuleUnit>, c: Seq<int>) -> bool {
    &&& c.len() >= 2
    &&& c[0] == c.last()
    &&& forall|t: int| 0 <= t < c.len() - 1 ==> imports_module(g, #[trigger] c[t], c[t + 1])
}

/// The modules import one another in a cycle.
pub open spec fn has_cycle(g: Seq<ModuleUnit>) -> bool {
    exists|c: Seq<int>| is_cycle(g, c)
}

/// The ids along a chain, joined by ` -> `.
pub open spec fn chain_text(g: Seq<ModuleUnit>, c: Seq<int>) -> Seq<char> {
    joined(c.map_values(|i: int| g[i].id@), " -> "@)
}

/// `e` reports the import cycle `c`.
pub open spec fn reports_cycle(e: ResolveError, g: Seq<ModuleUnit>, c: Seq<int>) -> bool {
    &&& e.kind == ResolveErrorKind::Cycle
    &&& e.code@ == kind_code(ResolveErrorKind::Cycle)
    &&& e.message@ == "Import cycle detected: "@ + chain_text(g, c)
    &&& e.path is None
    &&& e.line is None
    &&& e.col is None
}

/// Each of `errors` reports an import cycle of `g`.
pub open spec fn all_report_cycles(errors: Seq<ResolveError>, g: Seq<ModuleUnit>) -> bool {
    forall|i: int| 0 <= i < errors.len() ==> exists|c: Seq<int>| is_cycle(g, c) && reports_cycle(#[trigger] errors[i], g, c)
}

/// The cycle that an import of module `j` closes while `j` is on `stack`:
/// the modules from `j`'s place on the stack to its top, then `j` again.
pub open spec fn cycle_at(stack: Seq<usize>, j: int) -> Seq<int> {
    let p = choose|p: int| 0 <= p < stack.len() && stack[p] as int == j;
    stack.subrange(p, stack.len() as int).map_values(|s: usize| s as int).push(j)
}

/// The module whose id is `id`, if one is.
pub open spec fn module_with_id(g: Seq<ModuleUnit>, id: Seq<char>) -> Option<int> {
    if exists|j: int| 0 <= j < g.len() && g[j].id@ == id {
        Some(choose|j: int| 0 <= j < g.len() && g[j].id@ == id)
    } else {
        None
    }
}

/// The walk from module `node` with `stack` the current path: `node` turns
/// gray, its imports are taken in order, then it turns black. Gives the
/// colors after and the cycles reported, in order. `fuel` bounds the depth.
pub open spec fn visit_walk(g: Seq<ModuleUnit>, node: int, colors: Seq<Color>, stack: Seq<usize>, fuel: nat) -> (Seq<Color>, Seq<Seq<int>>)
    decreases fuel, 0int, 0int,
{
    if fuel == 0 {
        (colors, Seq::empty())
    } else {
        let (c, r) = imports_walk(g, node, 0, colors.update(node, Color::Gray), stack.push(node as usize), (fuel - 1) as nat);
        (c.update(node, Color::Black), r)
    }
}

/// The walk over the imports of `node` from the `k`th on: an import of a
/// module not in the graph, or of a finished one, is passed over; one of a
/// module not reached yet is walked; one of a module on the current path
/// reports its cycle.
pub open spec fn imports_walk(g: Seq<ModuleUnit>, node: int, k: int, colors: Seq<Color>, stack: Seq<usize>, fuel: nat) -> (Seq<Color>, Seq<Seq<int>>)
    decreases fuel, 1int, g[node].imports@.len() - k,
{
    if !(0 <= node < g.len()) || k < 0 || k >= g[node].imports@.len() {
        (colors, Seq::empty())
    } else {
        let (c1, r1) = match module_with_id(g, g[node].imports@[k]@) {
            Some(j) => if colors[j] == Color::White {
                visit_walk(g, j, colors, stack, fuel)
            } else if colors[j] == Color::Gray {
                (colors, seq![cycle_at(stack, j)])
            } else {
                (colors, Seq::empty())
            },
            None => (colors, Seq::empty()),
        };
        let (c2, r2) = imports_walk(g, node, k + 1, c1, stack, fuel);
        (c2, r1 + r2)
    }
}

/// The cycles reported by walking from each module of `order` in turn, from
/// position `i` on, that the walk has not reached yet.
pub open spec fn walk_from(g: Seq<ModuleUnit>, order: Seq<usize>, i: int, colors: Seq<Color>, fuel: nat) -> Seq<Seq<int>>
    decreases order.len() - i,
{
    if i < 0 || i >= order.len() {
        Seq::empty()
    } else if colors[order[i] as int] == Color::White {
        let (c1, r1) = visit_walk(g, order[i] as int, colors, Seq::empty(), fuel);
        r1 + walk_from(g, order, i + 1, c1, fuel)
    } else {
        walk_from(g, order, i + 1, colors, fuel)
    }
}

/// The cycles reported by the whole walk, which starts from the modules in `order`.
pub open spec fn reported_cycles(g: Seq<ModuleUnit>, order: Seq<usize>) -> Seq<Seq<int>> {
    walk_from(g, order, 0, Seq::new(g.len(), |i: int| Color::White), g.len() as nat)
}

/// `order` holds the positions of the modules, each once, in the order of their ids.
pub open spec fn id_order(order: Seq<usize>, g: Seq<ModuleUnit>) -> bool {
    &&& order.len() == g.len()
    &&& forall|t: int| 0 <= t < order.len() ==> (#[trigger] order[t]) < g.len()
    &&& forall|v: int| 0 <= v < g.len() ==> #[trigger] lists(order, v)
    &&& forall|t: int, u: int| 0 <= t < u < order.len()
        ==> !bytes_less(utf8(g[#[trigger] order[u] as int].id@), utf8(g[#[trigger] order[t] as int].id@))
}

/// `errors` is one report per cycle of `cycles`, in order.
pub open spec fn reports_each(errors: Seq<ResolveError>, g: Seq<ModuleUnit>, cycles: Seq<Seq<int>>) -> bool {
    &&& errors.len() == cycles.len()
    &&& forall|i: int| 0 <= i < errors.len() ==> reports_cycle(#[trigger] errors[i], g, cycles[i])
}

/// `after` is `before` with one report per cycle of `cycles` appended.
spec fn appended(before: Seq<ResolveError>, after: Seq<ResolveError>, g: Seq<ModuleUnit>, cycles: Seq<Seq<int>>) -> bool {
    &&& after.len() == before.len() + cycles.len()
    &&& forall|i: int| 0 <= i < before.len() ==> after[i] == before[i]
    &&& forall|i: int| 0 <= i < cycles.len() ==> reports_cycle(#[trigger] after[before.len() + i], g, cycles[i])
}

proof fn lemma_appended_trans(a: Seq<ResolveError>, b: Seq<ResolveError>, c: Seq<ResolveError>, g: Seq<ModuleUnit>, r1: Seq<Seq<int>>, r2: Seq<Seq<int>>)
    requires
        appended(a, b, g, r1),
        appended(b, c, g, r2),
    ensures
        appended(a, c, g, r1 + r2),
{
    assert forall|i: int| 0 <= i < (r1 + r2).len() implies reports_cycle(#[trigger] c[a.len() + i], g, (r1 + r2)[i]) by {
        if i < r1.len() {
            assert(c[a.len() + i] == b[a.len() + i]);
        } else {
            assert(c[b.len() + (i - r1.len())] == c[a.len() + i]);
        }
    }
}

proof fn lemma_whites_bound(c: Seq<Color>)
    ensures
        whites(c) <= c.len(),
    decreases c.len(),
{
    if c.len() > 0 {
        lemma_whites_bound(c.drop_last());
    }
}

spec fn whites(c: Seq<Color>) -> nat
    decreases c.len(),
{
    if c.len() == 0 {
        0
    } else {
        whites(c.drop_last()) + if c.last() == Color::White { 1nat } else { 0nat }
    }
}

proof fn lemma_whites_shrink(a: Seq<Color>, b: Seq<Color>, k: int)
    requires
        a.len() == b.len(),
        forall|i: int| 0 <= i < a.len() && a[i] != Color::White ==> b[i] != Color::White,
    ensures
        whites(b) <= whites(a),
        0 <= k < a.len() && a[k] == Color::White && b[k] != Color::White ==> whites(b) < whites(a),
    decreases a.len(),
{
    if a.len() > 0 {
        lemma_whites_shrink(a.drop_last(), b.drop_last(), k);
    }
}

/// The state of the walk: `colors` has a color per module; the gray modules
/// are those on `stack`, each importing the next; the black ones are those
/// in `finished`; while no cycle is reported, every module a finished module
/// imports finished before it; and each report is of a cycle.
spec fn walk_state(g: Seq<ModuleUnit>, colors: Seq<Color>, stack: Seq<usize>, finished: Seq<int>, errors: Seq<ResolveError>) -> bool {
    &&& colors.len() == g.len()
    &&& forall|t: int| 0 <= t < stack.len() ==> (#[trigger] stack[t]) < g.len()
    &&& forall|t: int, u: int| 0 <= t < stack.len() && 0 <= u < stack.len() && t != u ==> #[trigger] stack[t] != #[trigger] stack[u]
    &&& forall|v: int| 0 <= v < g.len() ==> ((#[trigger] colors[v] == Color::Gray) <==> lists(stack, v))
    &&& forall|t: int| 0 <= t < stack.len() - 1 ==> imports_module(g, #[trigger] stack[t] as int, stack[t + 1] as int)
    &&& forall|a: int| 0 <= a < finished.len() ==> 0 <= #[trigger] finished[a] < g.len()
    &&& forall|a: int, b: int| 0 <= a < finished.len() && 0 <= b < finished.len() && a != b ==> #[trigger] finished[a] != #[trigger] finished[b]
    &&& forall|v: int| 0 <= v < g.len() ==> ((#[trigger] colors[v] == Color::Black) <==> finished.contains(v))
    &&& errors.len() == 0 ==> forall|a: int, w: int| 0 <= a < finished.len() && #[trigger] imports_module(g, finished[a], w)
        ==> exists|b: int| 0 <= b < a && #[trigger] finished[b] == w
    &&& all_report_cycles(errors, g)
}

/// The position of `v` on `stack`.
fn stack_position(stack: &Vec<usize>, v: usize) -> (r: Option<usize>)
    ensures
        match r {
            Some(p) => p < stack@.len() && stack@[p as int] == v,
            None => !stack@.contains(v),
        },
{
    let mut p: usize = 0;
    while p < stack.len()
        invariant
            p <= stack@.len(),
            forall|t: int| 0 <= t < p ==> stack@[t] != v,
        decreases stack@.len() - p,
    {
        if stack[p] == v {
            return Some(p);
        }
        p += 1;
    }
    None
}

/// The report of the cycle that goes from position `p` of `stack` to its top
/// and back to `dep`, which is at position `p`.
fn cycle_report(modules: &Vec<ModuleUnit>, stack: &Vec<usize>, p: usize, dep: &String) -> (r: ResolveError)
    requires
        p < stack@.len(),
        forall|t: int| 0 <= t < stack@.len() ==> (#[trigger] stack@[t]) < modules@.len(),
        dep@ == modules@[stack@[p as int] as int].id@,
    ensures
        reports_cycle(r, modules@, stack@.subrange(p as int, stack@.len() as int).map_values(|s: usize| s as int).push(stack@[p as int] as int)),
{
    let ghost c = stack@.subrange(p as int, stack@.len() as int).map_values(|s: usize| s as int).push(stack@[p as int] as int);
    let mut cycle: Vec<String> = Vec::new();
    let mut t = p;
    while t < stack.len()
        invariant
            p <= t <= stack@.len(),
            forall|u: int| 0 <= u < stack@.len() ==> (#[trigger] stack@[u]) < modules@.len(),
            cycle@.len() == t - p,
            forall|u: int| 0 <= u < t - p ==> (#[trigger] cycle@[u])@ == modules@[stack@[p + u] as int].id@,
        decreases stack@.len() - t,
    {
        cycle.push(modules[stack[t]].id.clone());
        t += 1;
    }
    cycle.push(dep.clone());
    assert(cycle@.map_values(|s: String| s@) =~= c.map_values(|i: int| modules@[i].id@));
    let mut msg = String::from_str("Import cycle detected: ");
    msg.append(join_texts(cycle.as_slice(), " -> ").as_str());
    ResolveError::new(ResolveErrorKind::Cycle, msg, None)
}

/// The position of the module with id `id`.
fn module_position(modules: &Vec<ModuleUnit>, id: &str) -> (r: Option<usize>)
    ensures
        match r {
            Some(i) => i < modules@.len() && modules@[i as int].id@ == id@,
            None => forall|i: int| 0 <= i < modules@.len() ==> (#[trigger] modules@[i]).id@ != id@,
        },
{
    let mut i: usize = 0;
    while i < modules.len()
        invariant
            i <= modules@.len(),
            forall|j: int| 0 <= j < i ==> (#[trigger] modules@[j]).id@ != id@,
        decreases modules@.len() - i,
    {
        if text_eq(modules[i].id.as_str(), id) {
            return Some(i);
        }
        i += 1;
    }
    None
}

/// Walks from module `node`, which the walk has not reached: it turns gray,
/// each module it imports is walked (if not reached yet) or, if it is gray,
/// its cycle reported; then it turns black and finishes.
#[verifier::rlimit(80)]
fn visit(
    node: usize,
    modules: &Vec<ModuleUnit>,
    colors: &mut Vec<Color>,
    stack: &mut Vec<usize>,
    errors: &mut Vec<ResolveError>,
    finished: Ghost<Seq<int>>,
    fuel: Ghost<nat>,
) -> (done: Ghost<Seq<int>>)
    requires
        distinct_ids(modules@),
        node < modules@.len(),
        walk_state(modules@, old(colors)@, old(stack)@, finished@, old(errors)@),
        old(colors)@[node as int] == Color::White,
        old(stack)@.len() > 0 ==> imports_module(modules@, old(stack)@.last() as int, node as int),
        whites(old(colors)@) <= fuel@,
    ensures
        final(colors)@ == visit_walk(modules@, node as int, old(colors)@, old(stack)@, fuel@).0,
        appended(old(errors)@, final(errors)@, modules@, visit_walk(modules@, node as int, old(colors)@, old(stack)@, fuel@).1),
        walk_state(modules@, final(colors)@, final(stack)@, done@, final(errors)@),
        final(stack)@ == old(stack)@,
        final(colors)@[node as int] == Color::Black,
        forall|v: int| 0 <= v < modules@.len() && old(colors)@[v] != Color::White ==> final(colors)@[v] == old(colors)@[v],
        finished@.len() <= done@.len(),
        done@.take(finished@.len() as int) == finished@,
        old(errors)@.len() <= final(errors)@.len(),
    decreases whites(old(colors)@),
{
    let ghost c0 = colors@;
    let ghost s0 = stack@;
    let ghost e0 = errors@.len();
    let ghost e_init = errors@;
    let ghost f1: nat = (fuel@ - 1) as nat;
    proof {
        lemma_whites_shrink(c0, c0.update(node as int, Color::Gray), node as int);
    }
    colors.set(node, Color::Gray);
    stack.push(node);
    let ghost start = imports_walk(modules@, node as int, 0, colors@, stack@, f1);
    let ghost mut rep: Seq<Seq<int>> = Seq::empty();
    assert(start.1 =~= rep + imports_walk(modules@, node as int, 0, colors@, stack@, f1).1);
    let ghost mut fin = finished@;
    assert(walk_state(modules@, colors@, stack@, fin, errors@)) by {
        assert forall|v: int| 0 <= v < modules@.len() implies ((#[trigger] colors@[v] == Color::Gray) <==> lists(stack@, v)) by {
            if v == node as int {
                assert(stack@[stack@.len() - 1] as int == v);
            } else {
                assert(colors@[v] == c0[v]);
                if lists(s0, v) {
                    let t = choose|t: int| 0 <= t < s0.len() && #[trigger] s0[t] as int == v;
                    assert(stack@[t] as int == v);
                }
                if lists(stack@, v) {
                    let t = choose|t: int| 0 <= t < stack@.len() && #[trigger] stack@[t] as int == v;
                    assert(stack@[s0.len() as int] == node);
                    assert(t < s0.len());
                    assert(s0[t] as int == v);
                }
            }
        }
        assert forall|t: int, u: int| 0 <= t < stack@.len() && 0 <= u < stack@.len() && t != u implies #[trigger] stack@[t] != #[trigger] stack@[u] by {
            if t == stack@.len() - 1 && u < s0.len() {
                assert(c0[s0[u] as int] == Color::Gray);
            }
            if u == stack@.len() - 1 && t < s0.len() {
                assert(c0[s0[t] as int] == Color::Gray);
            }
        }
        assert forall|v: int| 0 <= v < modules@.len() implies ((#[trigger] colors@[v] == Color::Black) <==> fin.contains(v)) by {
            if v != node as int {
                assert(colors@[v] == c0[v]);
            }
        }
    }
    assert(fin.take(finished@.len() as int) =~= finished@);
    let imports = &modules[node].imports;
    let mut k: usize = 0;
    while k < imports.len()
        invariant
            distinct_ids(modules@),
            node < modules@.len(),
            imports@ == modules@[node as int].imports@,
            walk_state(modules@, colors@, stack@, fin, errors@),
            stack@ == s0.push(node),
            colors@[node as int] == Color::Gray,
            c0[node as int] == Color::White,
            c0 == old(colors)@,
            c0.len() == modules@.len(),
            forall|v: int| 0 <= v < modules@.len() && c0[v] != Color::White ==> colors@[v] == c0[v],
            finished@.len() <= fin.len(),
            fin.take(finished@.len() as int) == finished@,
            e0 <= errors@.len(),
            forall|k2: int, j: int| 0 <= k2 < k && 0 <= j < modules@.len() && #[trigger] modules@[j].id@ == #[trigger] imports@[k2]@
                ==> colors@[j] == Color::Black || errors@.len() > 0,
            whites(c0) <= fuel@,
            f1 == fuel@ - 1,
            start == imports_walk(modules@, node as int, 0, c0.update(node as int, Color::Gray), s0.push(node), f1),
            start.0 == imports_walk(modules@, node as int, k as int, colors@, stack@, f1).0,
            start.1 == rep + imports_walk(modules@, node as int, k as int, colors@, stack@, f1).1,
            appended(e_init, errors@, modules@, rep),
            e_init == old(errors)@,
        decreases imports@.len() - k,
    {
        let ghost before = colors@;
        let ghost fin_before = fin;
        let ghost errs_before = errors@;
        let ghost here = imports_walk(modules@, node as int, k as int, colors@, stack@, f1);
        let dep = &imports[k];
        match module_position(modules, dep.as_str()) {
            None => {
                proof {
                    assert(module_with_id(modules@, modules@[node as int].imports@[k as int]@) is None);
                    let next = imports_walk(modules@, node as int, k + 1, colors@, stack@, f1);
                    assert(here.1 =~= Seq::<Seq<int>>::empty() + next.1);
                }
            },
            Some(j) => {
                proof {
                    assert(module_with_id(modules@, modules@[node as int].imports@[k as int]@) == Some(j as int)) by {
                        assert(modules@[j as int].id@ == imports@[k as int]@);
                    }
                }
                let color = colors[j];
                match color {
                    Color::White => {
                        proof {
                            lemma_whites_shrink(c0, colors@, node as int);
                            assert(imports_module(modules@, node as int, j as int)) by {
                                assert(modules@[node as int].imports@[k as int]@ == modules@[j as int].id@);
                            }
                        }
                        let ghost sub = visit_walk(modules@, j as int, colors@, stack@, f1);
                        let done = visit(j, modules, colors, stack, errors, Ghost(fin), Ghost(f1));
                        proof {
                            let next = imports_walk(modules@, node as int, k + 1, colors@, stack@, f1);
                            assert(here.0 == next.0);
                            assert(here.1 == sub.1 + next.1);
                            lemma_appended_trans(e_init, errs_before, errors@, modules@, rep, sub.1);
                            rep = rep + sub.1;
                            assert(start.1 =~= rep + next.1);
                            fin = done@;
                            assert(fin.take(finished@.len() as int) =~= fin_before.take(finished@.len() as int)) by {
                                assert(fin.take(fin_before.len() as int) == fin_before);
                            }
                        }
                    },
                    Color::Gray => {
                        let p = match stack_position(stack, j) {
                            Some(p) => p,
                            None => {
                                assert(false);
                                k += 1;
                                continue;
                            },
                        };
                        let ghost c = stack@.subrange(p as int, stack@.len() as int).map_values(|s: usize| s as int).push(stack@[p as int] as int);
                        let report = cycle_report(modules, stack, p, dep);
                        proof {
                            assert(is_cycle(modules@, c)) by {
                                assert forall|t: int| 0 <= t < c.len() - 1 implies imports_module(modules@, #[trigger] c[t], c[t + 1]) by {
                                    if t < c.len() - 2 {
                                        assert(c[t] == stack@[p + t] as int);
                                        assert(c[t + 1] == stack@[p + t + 1] as int);
                                    } else {
                                        assert(c[t] == node as int);
                                        assert(modules@[node as int].imports@[k as int]@ == modules@[j as int].id@);
                                    }
                                }
                            }
                        }
                        errors.push(report);
                        proof {
                            let next = imports_walk(modules@, node as int, k + 1, colors@, stack@, f1);
                            assert(c =~= cycle_at(stack@, j as int)) by {
                                let q = choose|q: int| 0 <= q < stack@.len() && stack@[q] as int == j as int;
                                assert(q == p as int);
                            }
                            assert(here.1 == seq![c] + next.1);
                            assert(appended(errs_before, errors@, modules@, seq![c])) by {
                                assert(errors@[errs_before.len() as int] == report);
                            }
                            lemma_appended_trans(e_init, errs_before, errors@, modules@, rep, seq![c]);
                            rep = rep + seq![c];
                            assert(start.1 =~= rep + next.1);
                        }
                        proof {
                            assert forall|i: int| 0 <= i < errors@.len() implies exists|c2: Seq<int>| is_cycle(modules@, c2) && reports_cycle(#[trigger] errors@[i], modules@, c2) by {
                                if i == errors@.len() - 1 {
                                    assert(is_cycle(modules@, c) && reports_cycle(errors@[i], modules@, c));
                                }
                            }
                        }
                    },
                    Color::Black => {
                        proof {
                            let next = imports_walk(modules@, node as int, k + 1, colors@, stack@, f1);
                            assert(here.1 =~= Seq::<Seq<int>>::empty() + next.1);
                        }
                    },
                }
            },
        }
        k += 1;
    }
    proof {
        assert(start.1 =~= rep);
    }
    stack.pop();
    colors.set(node, Color::Black);
    let ghost fin_loop = fin;
    proof {
        fin = fin.push(node as int);
        assert(!fin_loop.contains(node as int));
        assert(fin.take(finished@.len() as int) =~= fin_loop.take(finished@.len() as int));
        assert(stack@ =~= s0);
    }
    assert(walk_state(modules@, colors@, stack@, fin, errors@)) by {
        assert forall|v: int| 0 <= v < modules@.len() implies ((#[trigger] colors@[v] == Color::Gray) <==> lists(stack@, v)) by {
            if lists(s0.push(node), v) {
                let t = choose|t: int| 0 <= t < s0.push(node).len() && #[trigger] s0.push(node)[t] as int == v;
                if t < s0.len() {
                    assert(stack@[t] as int == v);
                } else {
                    assert(v == node as int);
                }
            }
            if lists(stack@, v) {
                let t = choose|t: int| 0 <= t < stack@.len() && #[trigger] stack@[t] as int == v;
                assert(s0.push(node)[t] as int == v);
                assert(s0.push(node)[t] != s0.push(node)[s0.len() as int]);
            }
        }
        assert forall|v: int| 0 <= v < modules@.len() implies ((#[trigger] colors@[v] == Color::Black) <==> fin.contains(v)) by {
            if v == node as int {
                assert(fin[fin.len() - 1] == v);
            } else {
                if fin_loop.contains(v) {
                    let a = choose|a: int| 0 <= a < fin_loop.len() && fin_loop[a] == v;
                    assert(fin[a] == v);
                }
                if fin.contains(v) {
                    let a = choose|a: int| 0 <= a < fin.len() && fin[a] == v;
                    assert(fin_loop[a] == v);
                }
            }
        }
        assert forall|a: int, b: int| 0 <= a < fin.len() && 0 <= b < fin.len() && a != b implies #[trigger] fin[a] != #[trigger] fin[b] by {
            if a == fin.len() - 1 && b < fin_loop.len() {
                assert(fin_loop.contains(fin_loop[b]));
            }
            if b == fin.len() - 1 && a < fin_loop.len() {
                assert(fin_loop.contains(fin_loop[a]));
            }
        }
        if errors@.len() == 0 {
            assert forall|a: int, w: int| 0 <= a < fin.len() && #[trigger] imports_module(modules@, fin[a], w)
                implies exists|b: int| 0 <= b < a && #[trigger] fin[b] == w by {
                if a < fin_loop.len() {
                    let b = choose|b: int| 0 <= b < a && fin_loop[b] == w;
                    assert(fin[b] == w);
                } else {
                    let k2 = choose|k2: int| 0 <= k2 < modules@[node as int].imports@.len() && #[trigger] modules@[node as int].imports@[k2]@ == modules@[w].id@;
                    assert(modules@[w].id@ == imports@[k2]@);
                    assert(colors@[w] == Color::Black);
                    assert(fin_loop.contains(w));
                    let b = choose|b: int| 0 <= b < fin_loop.len() && fin_loop[b] == w;
                    assert(fin[b] == w);
                }
            }
        }
    }
    Ghost(fin)
}

/// Along a chain whose every import finished before its importer, the
/// positions in the finishing order go down by at least one per step.
proof fn lemma_finish_descends(g: Seq<ModuleUnit>, fin: Seq<int>, c: Seq<int>, a0: int, t: int)
    requires
        0 <= a0 < fin.len(),
        fin[a0] == c[0],
        0 <= t < c.len(),
        forall|s: int| 0 <= s < c.len() - 1 ==> imports_module(g, #[trigger] c[s], c[s + 1]),
        forall|a: int, w: int| 0 <= a < fin.len() && #[trigger] imports_module(g, fin[a], w)
            ==> exists|b: int| 0 <= b < a && #[trigger] fin[b] == w,
    ensures
        exists|a: int| 0 <= a < fin.len() && fin[a] == c[t] && #[trigger] (a + t) <= a0,
    decreases t,
{
    if t == 0 {
        assert(a0 + 0 <= a0);
    } else {
        lemma_finish_descends(g, fin, c, a0, t - 1);
        let a = choose|a: int| 0 <= a < fin.len() && fin[a] == c[t - 1] && #[trigger] (a + (t - 1)) <= a0;
        assert(imports_module(g, c[t - 1], c[t]));
        assert(imports_module(g, fin[a], c[t]));
        let b = choose|b: int| 0 <= b < a && #[trigger] fin[b] == c[t];
        assert(b + t <= a0);
    }
}

/// A finishing order that holds every module, in which every import of a
/// module finished before it, leaves no room for a cycle.
proof fn lemma_no_cycle(g: Seq<ModuleUnit>, fin: Seq<int>)
    requires
        forall|a: int, b: int| 0 <= a < fin.len() && 0 <= b < fin.len() && a != b ==> #[trigger] fin[a] != #[trigger] fin[b],
        forall|v: int| 0 <= v < g.len() ==> #[trigger] fin.contains(v),
        forall|a: int, w: int| 0 <= a < fin.len() && #[trigger] imports_module(g, fin[a], w)
            ==> exists|b: int| 0 <= b < a && #[trigger] fin[b] == w,
    ensures
        !has_cycle(g),
{
    if has_cycle(g) {
        let c = choose|c: Seq<int>| is_cycle(g, c);
        assert(imports_module(g, c[0], c[1]));
        assert(fin.contains(c[0]));
        let a0 = choose|a: int| 0 <= a < fin.len() && fin[a] == c[0];
        let t = c.len() - 1;
        lemma_finish_descends(g, fin, c, a0, t);
        let a = choose|a: int| 0 <= a < fin.len() && fin[a] == c[t] && #[trigger] (a + t) <= a0;
        assert(fin[a] == fin[a0]);
    }
}

/// The import cycles of the graph, found by a depth-first walk that takes
/// the modules in the order of their ids and, in each module, the imports in
/// their order; an import of a module that is not in the graph is passed
/// over. Each import that leads back to a module on the walk's current path
/// is reported, with the ids along the cycle.
pub fn detect_cycles(graph: &ModuleGraph) -> (errors: Vec<ResolveError>)
    ensures
        exists|order: Seq<usize>| id_order(order, graph.units())
            && reports_each(errors@, graph.units(), reported_cycles(graph.units(), order)),
        all_report_cycles(errors@, graph.units()),
        errors@.len() == 0 <==> !has_cycle(graph.units()),
{
    let modules = graph.modules();
    let mut colors: Vec<Color> = Vec::new();
    while colors.len() < modules.len()
        invariant
            colors@.len() <= modules@.len(),
            forall|v: int| 0 <= v < colors@.len() ==> #[trigger] colors@[v] == Color::White,
        decreases modules@.len() - colors@.len(),
    {
        colors.push(Color::White);
    }
    let mut stack: Vec<usize> = Vec::new();
    let mut errors: Vec<ResolveError> = Vec::new();
    let ghost mut fin: Seq<int> = Seq::empty();
    let ghost whites0 = colors@;
    let mut ids: Vec<String> = Vec::new();
    let mut k: usize = 0;
    while k < modules.len()
        invariant
            k <= modules@.len(),
            ids@.len() == k,
            forall|t: int| 0 <= t < k ==> (#[trigger] ids@[t])@ == modules@[t].id@,
        decreases modules@.len() - k,
    {
        ids.push(modules[k].id.clone());
        k += 1;
    }
    let order = sorted_positions(&ids);
    let ghost g = modules@;
    let ghost n = g.len() as nat;
    proof {
        assert(whites0 =~= Seq::new(g.len(), |i: int| Color::White));
        assert forall|t: int, u: int| 0 <= t < u < order@.len()
            implies !bytes_less(utf8(g[#[trigger] order@[u] as int].id@), utf8(g[#[trigger] order@[t] as int].id@)) by {
            assert(!bytes_less(text_key(ids@, order@[u] as int), text_key(ids@, order@[t] as int)));
        }
        assert(id_order(order@, g));
        assert(reported_cycles(g, order@) =~= Seq::<Seq<int>>::empty() + walk_from(g, order@, 0, colors@, n));
    }
    let ghost mut rep: Seq<Seq<int>> = Seq::empty();
    let mut i: usize = 0;
    while i < order.len()
        invariant
            distinct_ids(modules@),
            order@.len() == modules@.len(),
            forall|t: int| 0 <= t < order@.len() ==> (#[trigger] order@[t]) < modules@.len(),
            i <= order@.len(),
            walk_state(modules@, colors@, stack@, fin, errors@),
            stack@.len() == 0,
            forall|t: int| 0 <= t < i ==> colors@[#[trigger] order@[t] as int] != Color::White,
            g == modules@,
            n == g.len(),
            id_order(order@, g),
            reported_cycles(g, order@) == rep + walk_from(g, order@, i as int, colors@, n),
            appended(Seq::empty(), errors@, g, rep),
        decreases order@.len() - i,
    {
        let v = order[i];
        let ghost errs_before = errors@;
        let ghost here = walk_from(g, order@, i as int, colors@, n);
        if colors[v] == Color::White {
            let ghost before = colors@;
            let ghost sub = visit_walk(g, v as int, colors@, stack@, n);
            proof {
                lemma_whites_bound(colors@);
                assert(stack@ =~= Seq::<usize>::empty());
            }
            let done = visit(v, modules, &mut colors, &mut stack, &mut errors, Ghost(fin), Ghost(n));
            proof {
                let next = walk_from(g, order@, i + 1, colors@, n);
                assert(here == sub.1 + next);
                lemma_appended_trans(Seq::empty(), errs_before, errors@, g, rep, sub.1);
                rep = rep + sub.1;
                assert(reported_cycles(g, order@) =~= rep + next);
                fin = done@;
                assert forall|t: int| 0 <= t < i + 1 implies colors@[#[trigger] order@[t] as int] != Color::White by {
                    if t < i {
                        assert(before[order@[t] as int] != Color::White);
                    }
                }
            }
        }
        i += 1;
    }
    proof {
        assert(reported_cycles(g, order@) =~= rep);
        assert(reports_each(errors@, g, rep)) by {
            assert forall|t: int| 0 <= t < errors@.len() implies reports_cycle(#[trigger] errors@[t], g, rep[t]) by {
                assert(errors@[0 + t] == errors@[t]);
            }
        }
        assert forall|v: int| 0 <= v < g.len() implies #[trigger] fin.contains(v) by {
            assert(lists(order@, v));
            let t = choose|t: int| 0 <= t < order@.len() && #[trigger] order@[t] as int == v;
            assert(colors@[order@[t] as int] != Color::White);
            if colors@[v] == Color::Gray {
                let s = choose|s: int| 0 <= s < stack@.len() && #[trigger] stack@[s] as int == v;
            }
        }
        if errors@.len() == 0 {
            lemma_no_cycle(g, fin);
        } else {
            assert(all_report_cycles(errors@, g));
            let e = errors@[0];
            assert(exists|c: Seq<int>| is_cycle(g, c) && reports_cycle(e, g, c));
        }
    }
    errors
}

} // verus!
