//! Facts about compiled graphs and runs that follow from the contracts of
//! `build` and `step`.
use vstd::prelude::*;
use crate::graph::{files, is_dependency, is_output, DepGraph, RuleView};
use crate::make::{needs_build, newer, stale};

verus! {

/// The distinct outputs of the rules.
pub open spec fn output_files(rules: Seq<RuleView>) -> Set<Seq<char>> {
    Set::new(|f: Seq<char>| is_output(rules, f))
}

/// The distinct dependencies of the rules.
pub open spec fn dependency_files(rules: Seq<RuleView>) -> Set<Seq<char>> {
    Set::new(|f: Seq<char>| is_dependency(rules, f))
}

/// A compiled graph has one node per distinct output, plus one per distinct
/// dependency that is not also an output.
pub proof fn lemma_node_count<F>(g: DepGraph<F>, rules: Seq<RuleView>, steps: Seq<F>)
    requires
        g.compiled_from(rules, steps),
    ensures
        g.paths().len() == output_files(rules).len() + dependency_files(rules).difference(
            output_files(rules),
        ).len(),
{
    let outs = output_files(rules);
    let leaves = dependency_files(rules).difference(outs);
    g.paths().unique_seq_to_set();
    assert(files(rules) =~= outs.union(leaves));
    assert(outs.subset_of(files(rules)));
    assert(leaves.subset_of(files(rules)));
    vstd::set_lib::lemma_len_subset(outs, files(rules));
    vstd::set_lib::lemma_len_subset(leaves, files(rules));
    assert(outs.disjoint(leaves));
    vstd::set_lib::lemma_set_disjoint_lens(outs, leaves);
}

/// A node whose output exists and is at least as new as each of its
/// dependencies is not rebuilt by a normal run. Right after a run, with no
/// file changed since, every node is in that state, so running again builds
/// nothing.
pub proof fn lemma_up_to_date_not_rebuilt(has_step: bool, output: u128, deps: Seq<Option<u128>>)
    requires
        forall|k: int| 0 <= k < deps.len() ==> #[trigger] deps[k] is Some && !newer(deps[k], output),
    ensures
        !stale(Some(output), deps),
        !needs_build(false, has_step, Some(output), deps),
{
}

} // verus!
