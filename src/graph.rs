//! Rules, and their compilation into a checked dependency graph.
//!
//! A rule says that one output file is made from an ordered list of dependency
//! files by a build step. Compiling gives every distinct file one node: the
//! outputs first, in the order their rules were added, then each file that is
//! only ever a dependency (a leaf), when it is first met. Node `a` depends on
//! node `b` when `a`'s rule lists `b`'s file.
use vstd::prelude::*;
use crate::digraph::{
    cyclic, graph_add_edge, graph_add_node, graph_edges, graph_is_cyclic, graph_new, graph_order, graph_toposort,
    is_cycle, lists_all_nodes, sources_first, IndexGraph,
};
use crate::error::Error;

verus! {

/// The view of a rule: its output path and its dependency paths, in order.
pub type RuleView = (Seq<char>, Seq<Seq<char>>);

/// Whether two rules declare the same output.
pub open spec fn duplicate_output(rules: Seq<RuleView>) -> bool {
    exists|i: int, j: int| 0 <= i < j < rules.len() && #[trigger] rules[i].0 == #[trigger] rules[j].0
}

/// Whether some rule makes `a` and lists `b` among its dependencies.
pub open spec fn depends(rules: Seq<RuleView>, a: Seq<char>, b: Seq<char>) -> bool {
    exists|r: int| 0 <= r < rules.len() && #[trigger] rules[r].0 == a && rules[r].1.contains(b)
}

/// Whether `p` is a closed chain of files, each depending on the next.
pub open spec fn is_rule_cycle(rules: Seq<RuleView>, p: Seq<Seq<char>>) -> bool {
    &&& p.len() >= 2
    &&& p[0] == p[p.len() - 1]
    &&& forall|k: int| 0 <= k < p.len() - 1 ==> #[trigger] depends(rules, p[k], p[k + 1])
}

/// Whether the rules hold a circular dependency (a file that depends on itself
/// counts).
pub open spec fn rule_cycle(rules: Seq<RuleView>) -> bool {
    exists|p: Seq<Seq<char>>| is_rule_cycle(rules, p)
}

/// Whether some rule makes `f`.
pub open spec fn is_output(rules: Seq<RuleView>, f: Seq<char>) -> bool {
    exists|r: int| 0 <= r < rules.len() && #[trigger] rules[r].0 == f
}

/// Whether some rule lists `f` among its dependencies.
pub open spec fn is_dependency(rules: Seq<RuleView>, f: Seq<char>) -> bool {
    exists|r: int| 0 <= r < rules.len() && #[trigger] rules[r].1.contains(f)
}

/// Every file that the rules name, as an output or as a dependency.
pub open spec fn files(rules: Seq<RuleView>) -> Set<Seq<char>> {
    Set::new(|f: Seq<char>| is_output(rules, f) || is_dependency(rules, f))
}

/// Collects rules; [`DepGraphBuilder::build`] compiles them into a [`DepGraph`].
///
/// `F` is the type of the build steps, which this library stores and hands back
/// but never runs.
pub struct DepGraphBuilder<F> {
    outputs: Vec<String>,
    dependencies: Vec<Vec<String>>,
    steps: Vec<F>,
}

pub open spec fn paths_of(v: Seq<String>) -> Seq<Seq<char>> {
    v.map_values(|s: String| s@)
}

impl<F> DepGraphBuilder<F> {
    pub closed spec fn wf(&self) -> bool {
        &&& self.dependencies.len() == self.outputs.len()
        &&& self.steps.len() == self.outputs.len()
    }

    /// The rules added so far, in order.
    pub closed spec fn rules(&self) -> Seq<RuleView> {
        Seq::new(
            self.outputs.len() as nat,
            |i: int| (self.outputs[i]@, paths_of(self.dependencies[i]@)),
        )
    }

    /// The build steps of the rules added so far, in order.
    pub closed spec fn steps(&self) -> Seq<F> {
        self.steps@
    }

    /// A builder with no rules.
    pub fn new() -> (r: Self)
        ensures
            r.wf(),
            r.rules() == Seq::<RuleView>::empty(),
            r.steps() == Seq::<F>::empty(),
    {
        let r = DepGraphBuilder { outputs: Vec::new(), dependencies: Vec::new(), steps: Vec::new() };
        assert(r.rules() =~= Seq::<RuleView>::empty());
        r
    }

    /// Adds a rule: `filename` is made from `dependencies` by `build_fn`. Rules
    /// may come in any order and may name files whose rules come later.
    pub fn add_rule(self, filename: String, dependencies: &[String], build_fn: F) -> (r: Self)
        requires
            self.wf(),
        ensures
            r.wf(),
            r.rules() == self.rules().push((filename@, paths_of(dependencies@))),
            r.steps() == self.steps().push(build_fn),
    {
        let DepGraphBuilder { outputs: mut outputs, dependencies: mut deps, steps: mut steps } = self;
        let mut copied: Vec<String> = Vec::new();
        let mut k: usize = 0;
        while k < dependencies.len()
            invariant
                k <= dependencies.len(),
                copied.len() == k,
                forall|m: int| 0 <= m < k ==> #[trigger] copied[m]@ == dependencies@[m]@,
            decreases dependencies.len() - k,
        {
            copied.push(dependencies[k].clone());
            k = k + 1;
        }
        assert(paths_of(copied@) =~= paths_of(dependencies@));
        outputs.push(filename);
        deps.push(copied);
        steps.push(build_fn);
        let r = DepGraphBuilder { outputs, dependencies: deps, steps };
        assert(r.rules() =~= self.rules().push((filename@, paths_of(dependencies@))));
        r
    }
}

/// A compiled dependency graph: every file once, no circular dependency.
pub struct DepGraph<F> {
    /// The file of each node.
    paths: Vec<String>,
    /// The dependencies of each node, as node indices in the order of its rule.
    deps: Vec<Vec<usize>>,
    /// The build step of each node that is a rule's output: those come first.
    steps: Vec<F>,
    /// The same edges, held for petgraph's cycle check and sort.
    graph: IndexGraph,
}

/// Whether the edge list holds exactly the pairs (node, one of its dependencies).
pub open spec fn edges_follow(edges: Seq<(usize, usize)>, deps: Seq<Seq<usize>>) -> bool {
    forall|a: usize, b: usize|
        #[trigger] edges.contains((a, b)) <==> (a < deps.len() && deps[a as int].contains(b))
}

/// Whether the files of `deps[i]` are those that `rules[i]` lists, for each rule.
pub open spec fn deps_match(
    rules: Seq<RuleView>,
    paths: Seq<Seq<char>>,
    deps: Seq<Seq<usize>>,
    n: int,
) -> bool {
    forall|i: int|
        0 <= i < n ==> {
            &&& #[trigger] deps[i].len() == rules[i].1.len()
            &&& forall|m: int|
                0 <= m < deps[i].len() ==> #[trigger] deps[i][m] < paths.len() && paths[deps[i][m] as int]
                    == rules[i].1[m]
        }
}

impl<F> DepGraph<F> {
    /// The file of each node.
    pub closed spec fn paths(&self) -> Seq<Seq<char>> {
        paths_of(self.paths@)
    }

    /// The dependencies of node `i`, in the order that its rule lists them.
    pub closed spec fn node_deps(&self, i: int) -> Seq<usize> {
        self.deps[i]@
    }

    /// The build steps: node `i` has one when `i < self.steps().len()`.
    pub closed spec fn steps(&self) -> Seq<F> {
        self.steps@
    }

    pub closed spec fn wf(&self) -> bool {
        &&& self.paths.len() == self.deps.len()
        &&& self.paths.len() == graph_order(self.graph)
        &&& self.steps.len() <= self.paths.len()
        &&& self.paths().no_duplicates()
        &&& forall|i: int, m: int|
            0 <= i < self.deps.len() && 0 <= m < self.deps[i].len() ==> #[trigger] self.deps[i][m]
                < self.paths.len()
        &&& forall|i: int| self.steps.len() <= i < self.deps.len() ==> #[trigger] self.deps[i].len() == 0
        &&& edges_follow(graph_edges(self.graph), self.deps@.map_values(|d: Vec<usize>| d@))
        &&& !cyclic(graph_edges(self.graph))
    }

    /// Whether this graph is what compiling `rules`, with build steps `steps`,
    /// gives: rule `i` is node `i`, with its step and its dependencies in order,
    /// and the other nodes are the remaining files, once each, with no step.
    pub open spec fn compiled_from(&self, rules: Seq<RuleView>, steps: Seq<F>) -> bool {
        &&& self.steps() == steps
        &&& steps.len() == rules.len()
        &&& rules.len() <= self.paths().len()
        &&& forall|i: int| 0 <= i < rules.len() ==> #[trigger] self.paths()[i] == rules[i].0
        &&& deps_match(rules, self.paths(), Seq::new(self.paths().len(), |i: int| self.node_deps(i)), rules.len() as int)
        &&& forall|i: int| rules.len() <= i < self.paths().len() ==> #[trigger] self.node_deps(i).len() == 0
        &&& self.paths().no_duplicates()
        &&& self.paths().to_set() == files(rules)
    }
}

/// Whether each node in `order` comes after every node it depends on.
pub open spec fn deps_before<F>(order: Seq<usize>, g: DepGraph<F>) -> bool {
    forall|i: int, j: int|
        0 <= i < order.len() && 0 <= j < order.len() && #[trigger] g.node_deps(order[j] as int).contains(
            #[trigger] order[i],
        ) ==> i < j
}

impl<F> DepGraph<F> {
    /// Whether node `i` has a build step.
    pub open spec fn has_step(&self, i: int) -> bool {
        0 <= i < self.steps().len()
    }

    /// The bounds that every well-formed graph keeps: steps belong to nodes,
    /// and dependencies are nodes.
    pub proof fn lemma_bounds(&self)
        requires
            self.wf(),
        ensures
            self.steps().len() <= self.paths().len() <= usize::MAX,
            forall|i: int, m: int|
                0 <= i < self.paths().len() && 0 <= m < self.node_deps(i).len() ==> #[trigger] self.node_deps(
                    i,
                )[m] < self.paths().len(),
    {
    }

    /// The number of nodes.
    pub fn node_count(&self) -> (r: usize)
        requires
            self.wf(),
        ensures
            r == self.paths().len(),
    {
        self.paths.len()
    }

    /// The file of node `node`.
    pub fn path(&self, node: usize) -> (r: &String)
        requires
            self.wf(),
            node < self.paths().len(),
        ensures
            r@ == self.paths()[node as int],
    {
        &self.paths[node]
    }

    /// The dependencies of node `node`, in the order that its rule lists them.
    pub fn dependencies(&self, node: usize) -> (r: &Vec<usize>)
        requires
            self.wf(),
            node < self.paths().len(),
        ensures
            r@ == self.node_deps(node as int),
    {
        &self.deps[node]
    }

    /// The build step of node `node`, if it is a rule's output.
    pub fn build_fn(&self, node: usize) -> (r: Option<&F>)
        requires
            self.wf(),
        ensures
            r is Some <==> self.has_step(node as int),
            r matches Some(f) ==> *f == self.steps()[node as int],
    {
        if node < self.steps.len() {
            Some(&self.steps[node])
        } else {
            None
        }
    }

    /// The order in which to build: every node once, each after the nodes it
    /// depends on. The graph is acyclic, so this never fails; a cycle would be
    /// reported as `Cycle`.
    pub fn build_order(&self) -> (r: Result<Vec<usize>, Error>)
        requires
            self.wf(),
        ensures
            r matches Ok(order) && lists_all_nodes(order@, self.paths().len()) && deps_before(order@, *self),
    {
        let sorted = match graph_toposort(&self.graph) {
            Ok(v) => v,
            Err(()) => return Err(Error::Cycle),
        };
        let ghost t = sorted@;
        let ghost edges = graph_edges(self.graph);
        let ghost dv = self.deps@.map_values(|d: Vec<usize>| d@);
        let n = sorted.len();
        let mut order: Vec<usize> = Vec::new();
        let mut k: usize = 0;
        while k < n
            invariant
                n == t.len(),
                sorted@ == t,
                k <= n,
                order.len() == k,
                forall|i: int| 0 <= i < k ==> #[trigger] order@[i] == t[n - 1 - i],
            decreases n - k,
        {
            order.push(sorted[n - 1 - k]);
            k = k + 1;
        }
        let ghost o = order@;
        assert(o.no_duplicates()) by {
            assert forall|i: int, j: int| 0 <= i < o.len() && 0 <= j < o.len() && i != j implies o[i] != o[j] by {
                assert(t[n - 1 - i] != t[n - 1 - j]);
            }
        }
        assert forall|k: int| 0 <= k < o.len() implies #[trigger] o[k] < self.paths().len() by {
            assert(t[n - 1 - k] < graph_order(self.graph));
        }
        assert forall|i: int, j: int|
            0 <= i < o.len() && 0 <= j < o.len() && #[trigger] self.node_deps(o[j] as int).contains(
                #[trigger] o[i],
            ) implies i < j by {
            assert(dv[o[j] as int] == self.node_deps(o[j] as int));
            assert(edges.contains((o[j], o[i])));
            assert(edges.contains((t[n - 1 - j], t[n - 1 - i])));
        }
        Ok(order)
    }
}

/// Looks `p` up among the files of the nodes made so far.
fn find_path(paths: &Vec<String>, p: &String) -> (r: Option<usize>)
    ensures
        r matches Some(i) ==> i < paths.len() && paths@[i as int]@ == p@,
        r is None ==> forall|i: int| 0 <= i < paths.len() ==> #[trigger] paths@[i]@ != p@,
{
    let mut i: usize = 0;
    while i < paths.len()
        invariant
            i <= paths.len(),
            forall|j: int| 0 <= j < i ==> #[trigger] paths@[j]@ != p@,
        decreases paths.len() - i,
    {
        if paths[i] == *p {
            return Some(i);
        }
        i = i + 1;
    }
    None
}

proof fn lemma_push_contains<A>(s: Seq<A>, x: A, y: A)
    ensures
        s.push(x).contains(y) <==> (s.contains(y) || y == x),
{
    if s.contains(y) {
        let k = choose|k: int| 0 <= k < s.len() && s[k] == y;
        assert(s.push(x)[k] == y);
    }
    if y == x {
        assert(s.push(x)[s.len() as int] == y);
    }
    if s.push(x).contains(y) {
        let k = choose|k: int| 0 <= k < s.len() + 1 && s.push(x)[k] == y;
        if k < s.len() {
            assert(s[k] == y);
        }
    }
}

spec fn output_index(rules: Seq<RuleView>, f: Seq<char>) -> int {
    choose|r: int| 0 <= r < rules.len() && #[trigger] rules[r].0 == f
}

/// The compiled graph has a cycle exactly when the rules do.
proof fn lemma_cycle_iff(
    rules: Seq<RuleView>,
    paths: Seq<Seq<char>>,
    deps: Seq<Seq<usize>>,
    edges: Seq<(usize, usize)>,
)
    requires
        rules.len() <= paths.len() <= usize::MAX,
        deps.len() == paths.len(),
        paths.no_duplicates(),
        forall|i: int| 0 <= i < rules.len() ==> #[trigger] paths[i] == rules[i].0,
        deps_match(rules, paths, deps, rules.len() as int),
        forall|i: int| rules.len() <= i < deps.len() ==> #[trigger] deps[i].len() == 0,
        edges_follow(edges, deps),
    ensures
        cyclic(edges) <==> rule_cycle(rules),
{
    if cyclic(edges) {
        let p = choose|p: Seq<usize>| is_cycle(edges, p);
        // every node on the cycle has an outgoing edge, so it is a rule's output
        assert forall|k: int| 0 <= k < p.len() - 1 implies p[k] < rules.len() && #[trigger] p[k + 1]
            < paths.len() by {
            assert(edges.contains((p[k], p[k + 1])));
            let m = choose|m: int| 0 <= m < deps[p[k] as int].len() && deps[p[k] as int][m] == p[k + 1];
            assert(deps[p[k] as int].len() > 0);
        }
        assert(p[0] < rules.len()) by {
            let k: int = 0;
            assert(edges.contains((p[k], p[k + 1])));
            let m = choose|m: int| 0 <= m < deps[p[k] as int].len() && deps[p[k] as int][m] == p[k + 1];
            assert(deps[p[k] as int].len() > 0);
        }
        let q = Seq::new(p.len(), |k: int| paths[p[k] as int]);
        assert forall|k: int| 0 <= k < q.len() - 1 implies #[trigger] depends(rules, q[k], q[k + 1]) by {
            assert(edges.contains((p[k], p[k + 1])));
            let a = p[k] as int;
            let m = choose|m: int| 0 <= m < deps[a].len() && deps[a][m] == p[k + 1];
            assert(rules[a].1[m] == q[k + 1]);
            assert(rules[a].1.contains(q[k + 1]));
        }
        assert(is_rule_cycle(rules, q));
    }
    if rule_cycle(rules) {
        let q = choose|q: Seq<Seq<char>>| is_rule_cycle(rules, q);
        // every file on the cycle is the output of exactly one rule
        assert forall|k: int| 0 <= k < q.len() implies #[trigger] is_output(rules, q[k]) by {
            let kk = if k == q.len() - 1 { 0 } else { k };
            assert(depends(rules, q[kk], q[kk + 1]));
        }
        let p = Seq::new(q.len(), |k: int| output_index(rules, q[k]) as usize);
        assert forall|k: int| 0 <= k < p.len() - 1 implies #[trigger] edges.contains((p[k], p[k + 1])) by {
            assert(depends(rules, q[k], q[k + 1]));
            let r = choose|r: int| 0 <= r < rules.len() && #[trigger] rules[r].0 == q[k] && rules[r].1.contains(
                q[k + 1],
            );
            let a = p[k] as int;
            let b = p[k + 1] as int;
            assert(is_output(rules, q[k]));
            assert(is_output(rules, q[k + 1]));
            let oa = output_index(rules, q[k]);
            let ob = output_index(rules, q[k + 1]);
            assert(0 <= oa < rules.len() && rules[oa].0 == q[k]);
            assert(0 <= ob < rules.len() && rules[ob].0 == q[k + 1]);
            assert(a == oa && b == ob);
            assert(paths[a] == paths[r]);
            assert(a == r);
            let m = choose|m: int| 0 <= m < rules[r].1.len() && rules[r].1[m] == q[k + 1];
            assert(deps[a].len() == rules[a].1.len());
            assert(paths[deps[a][m] as int] == rules[a].1[m]);
            assert(paths[deps[a][m] as int] == paths[b]);
            assert(deps[a][m] == p[k + 1]);
            assert(deps[a].contains(p[k + 1]));
        }
        assert(is_cycle(edges, p));
    }
}

impl<F> DepGraphBuilder<F> {
    /// Compiles the rules into a graph, checking them.
    ///
    /// Fails with `DuplicateFile` when two rules declare one output, else with
    /// `Cycle` when the rules hold a circular dependency; otherwise the graph is
    /// what [`DepGraph::compiled_from`] describes.
    pub fn build(self) -> (r: Result<DepGraph<F>, Error>)
        requires
            self.wf(),
        ensures
            r is Ok <==> !duplicate_output(self.rules()) && !rule_cycle(self.rules()),
            duplicate_output(self.rules()) ==> r matches Err(Error::DuplicateFile),
            !duplicate_output(self.rules()) && rule_cycle(self.rules()) ==> r matches Err(Error::Cycle),
            r matches Ok(g) ==> g.wf() && g.compiled_from(self.rules(), self.steps()),
            r matches Err(e) ==> (if duplicate_output(self.rules()) {
                e is DuplicateFile
            } else {
                e is Cycle
            }),
    {
        let ghost rules = self.rules();
        let n = self.outputs.len();
        let mut paths: Vec<String> = Vec::new();
        let mut graph = graph_new();
        // first pass: one node per output
        let mut i: usize = 0;
        while i < n
            invariant
                n == self.outputs.len(),
                rules.len() == n,
                rules == self.rules(),
                self.wf(),
                forall|a: int| 0 <= a < n ==> #[trigger] rules[a].0 == self.outputs@[a]@,
                i <= n,
                paths.len() == i,
                graph_order(graph) == i,
                graph_edges(graph) == Seq::<(usize, usize)>::empty(),
                forall|a: int| 0 <= a < i ==> #[trigger] paths@[a]@ == self.outputs@[a]@,
                paths_of(paths@).no_duplicates(),
            decreases n - i,
        {
            if let Some(j) = find_path(&paths, &self.outputs[i]) {
                assert(rules[j as int].0 == rules[i as int].0);
                assert(duplicate_output(rules));
                return Err(Error::DuplicateFile);
            }
            graph_add_node(&mut graph);
            let ghost before = paths@;
            paths.push(self.outputs[i].clone());
            assert(paths_of(paths@) =~= paths_of(before).push(self.outputs@[i as int]@));
            i = i + 1;
        }
        assert(!duplicate_output(rules)) by {
            if duplicate_output(rules) {
                let (a, b) = choose|a: int, b: int| 0 <= a < b < rules.len() && #[trigger] rules[a].0 == #[trigger] rules[b].0;
                assert(paths_of(paths@)[a] == paths_of(paths@)[b]);
            }
        }
        assert forall|x: int| 0 <= x < paths.len() implies #[trigger] files(rules).contains(paths@[x]@) by {
            assert(rules[x].0 == paths@[x]@);
        }
        // second pass: edges, and a leaf node for each file no rule makes
        let mut deps: Vec<Vec<usize>> = Vec::new();
        let mut i: usize = 0;
        while i < n
            invariant
                n == self.outputs.len(),
                n == self.dependencies.len(),
                rules.len() == n,
                rules == self.rules(),
                self.wf(),
                forall|a: int| 0 <= a < n ==> #[trigger] rules[a] == (self.outputs@[a]@, paths_of(self.dependencies@[a]@)),
                i <= n,
                n <= paths.len(),
                paths.len() == graph_order(graph),
                forall|a: int| 0 <= a < n ==> #[trigger] paths@[a]@ == self.outputs@[a]@,
                paths_of(paths@).no_duplicates(),
                forall|x: int| 0 <= x < paths.len() ==> #[trigger] files(rules).contains(paths@[x]@),
                deps.len() == i,
                deps_match(rules, paths_of(paths@), deps@.map_values(|d: Vec<usize>| d@), i as int),
                edges_follow(graph_edges(graph), deps@.map_values(|d: Vec<usize>| d@)),
            decreases n - i,
        {
            let ds = &self.dependencies[i];
            let mut cur: Vec<usize> = Vec::new();
            let mut k: usize = 0;
            while k < ds.len()
                invariant
                    n == self.outputs.len(),
                    n == self.dependencies.len(),
                    rules.len() == n,
                rules == self.rules(),
                self.wf(),
                    forall|a: int| 0 <= a < n ==> #[trigger] rules[a] == (self.outputs@[a]@, paths_of(self.dependencies@[a]@)),
                    i < n,
                    ds == self.dependencies@[i as int],
                    k <= ds.len(),
                    n <= paths.len(),
                    paths.len() == graph_order(graph),
                    forall|a: int| 0 <= a < n ==> #[trigger] paths@[a]@ == self.outputs@[a]@,
                    paths_of(paths@).no_duplicates(),
                    forall|x: int| 0 <= x < paths.len() ==> #[trigger] files(rules).contains(paths@[x]@),
                    deps.len() == i,
                    deps_match(rules, paths_of(paths@), deps@.map_values(|d: Vec<usize>| d@), i as int),
                    cur.len() == k,
                    forall|m: int| 0 <= m < k ==> #[trigger] cur@[m] < paths.len() && paths@[cur@[m] as int]@ == ds@[m]@,
                    forall|a: usize, b: usize|
                        #[trigger] graph_edges(graph).contains((a, b)) <==> ((a < i && deps@[a as int]@.contains(b))
                            || (a == i && cur@.contains(b))),
                decreases ds.len() - k,
            {
                let ghost old_paths = paths@;
                let j = match find_path(&paths, &ds[k]) {
                    Some(j) => j,
                    None => {
                        let j = graph_add_node(&mut graph);
                        paths.push(ds[k].clone());
                        assert(paths_of(paths@) =~= paths_of(old_paths).push(ds@[k as int]@));
                        assert(rules[i as int].1[k as int] == ds@[k as int]@);
                        assert(rules[i as int].1.contains(ds@[k as int]@));
                        assert(files(rules).contains(paths@[j as int]@));
                        j
                    },
                };
                let ghost old_edges = graph_edges(graph);
                let ghost old_cur = cur@;
                graph_add_edge(&mut graph, i, j);
                cur.push(j);
                assert forall|a: usize, b: usize|
                    #[trigger] graph_edges(graph).contains((a, b)) <==> ((a < i && deps@[a as int]@.contains(b))
                        || (a == i && cur@.contains(b))) by {
                    lemma_push_contains(old_edges, (i, j), (a, b));
                    lemma_push_contains(old_cur, j, b);
                }
                k = k + 1;
            }
            let ghost old_deps = deps@.map_values(|d: Vec<usize>| d@);
            deps.push(cur);
            assert(deps@.map_values(|d: Vec<usize>| d@) =~= old_deps.push(cur@));
            assert(rules[i as int].1.len() == ds.len());
            i = i + 1;
        }
        // leaves depend on nothing
        while deps.len() < paths.len()
            invariant
                n <= deps.len() <= paths.len(),
                deps_match(rules, paths_of(paths@), deps@.map_values(|d: Vec<usize>| d@), n as int),
                forall|a: int| n <= a < deps.len() ==> #[trigger] deps@[a].len() == 0,
                edges_follow(graph_edges(graph), deps@.map_values(|d: Vec<usize>| d@)),
            decreases paths.len() - deps.len(),
        {
            let ghost old_deps = deps@.map_values(|d: Vec<usize>| d@);
            deps.push(Vec::new());
            assert(deps@.map_values(|d: Vec<usize>| d@) =~= old_deps.push(Seq::empty()));
        }
        let ghost pv = paths_of(paths@);
        let ghost dv = deps@.map_values(|d: Vec<usize>| d@);
        proof {
            assert forall|a: int| n <= a < dv.len() implies #[trigger] dv[a].len() == 0 by {
                assert(deps@[a].len() == 0);
            }
            lemma_cycle_iff(rules, pv, dv, graph_edges(graph));
        }
        if graph_is_cyclic(&graph) {
            return Err(Error::Cycle);
        }
        assert forall|i: int, m: int| 0 <= i < deps.len() && 0 <= m < deps@[i].len() implies #[trigger] deps@[i]@[m]
            < paths.len() by {
            if i < n {
                assert(dv[i].len() == rules[i].1.len());
                assert(dv[i][m] < pv.len());
            }
        }
        let g = DepGraph { paths, deps, steps: self.steps, graph };
        assert(g.paths().to_set() =~= files(rules)) by {
            assert forall|f: Seq<char>| files(rules).contains(f) implies g.paths().to_set().contains(f) by {
                if is_output(rules, f) {
                    let r = choose|r: int| 0 <= r < rules.len() && #[trigger] rules[r].0 == f;
                    assert(g.paths()[r] == f);
                } else {
                    let r = choose|r: int| 0 <= r < rules.len() && #[trigger] rules[r].1.contains(f);
                    let m = choose|m: int| 0 <= m < rules[r].1.len() && rules[r].1[m] == f;
                    assert(dv[r].len() == rules[r].1.len());
                    assert(dv[r][m] < pv.len());
                    assert(g.paths()[dv[r][m] as int] == f);
                }
            }
        }
        assert(Seq::new(g.paths().len(), |i: int| g.node_deps(i)) =~= dv);
        assert forall|i: int| n <= i < g.paths().len() implies #[trigger] g.node_deps(i).len() == 0 by {
            assert(dv[i].len() == 0);
        }
        Ok(g)
    }
}

} // verus!
