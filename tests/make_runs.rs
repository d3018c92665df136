use depgraph::{dependencies_newer, Action, DepGraph, DepGraphBuilder, Error, Event, MakeParams, MakeRun};
use std::cell::{Cell, RefCell};
use std::collections::HashMap;
use std::rc::Rc;

/// An in-memory file system: each file has a modification time and contents;
/// every write ticks the clock.
#[derive(Default)]
struct World {
    files: RefCell<HashMap<String, (u128, String)>>,
    clock: Cell<u128>,
}

impl World {
    fn write(&self, p: &str, text: &str) {
        self.clock.set(self.clock.get() + 1);
        self.files.borrow_mut().insert(p.to_string(), (self.clock.get(), text.to_string()));
    }

    fn read(&self, p: &str) -> Option<String> {
        self.files.borrow().get(p).map(|f| f.1.clone())
    }

    fn mtime(&self, p: &str) -> Option<u128> {
        self.files.borrow().get(p).map(|f| f.0)
    }
}

type Step = Box<dyn Fn(&str, &[&str]) -> Result<(), String>>;

/// A step that writes the concatenation of its dependencies to its output.
fn copy_build(w: &Rc<World>) -> Step {
    let w = w.clone();
    Box::new(move |out: &str, deps: &[&str]| {
        let mut buf = String::new();
        for d in deps {
            buf.push_str(&w.read(d).ok_or(format!("cannot open {}", d))?);
        }
        w.write(out, &buf);
        Ok(())
    })
}

/// Runs a build against the in-memory file system; returns the outcome and
/// the nodes whose steps ran.
fn make_in(w: &World, g: &DepGraph<Step>, params: MakeParams) -> (Result<(), Error>, Vec<usize>) {
    let (mut run, mut action) = MakeRun::start(g, params);
    let mut ran = Vec::new();
    loop {
        let event = match action {
            Action::Finish(r) => return (r, ran),
            Action::Inspect(n) => {
                let deps: Vec<Option<u128>> = g.dependencies(n).iter().map(|d| w.mtime(g.path(*d))).collect();
                Event::Inspected(deps, w.mtime(g.path(n)))
            }
            Action::Run(n) => {
                ran.push(n);
                let dep_paths: Vec<&str> = g.dependencies(n).iter().map(|d| g.path(*d).as_str()).collect();
                let f = g.build_fn(n).unwrap();
                Event::Ran(f(g.path(n), &dep_paths))
            }
            Action::Verify(n) => Event::Verified(w.mtime(g.path(n)).is_some()),
        };
        action = run.step(g, event);
    }
}

fn s(p: &str) -> String {
    p.to_string()
}

fn noop(_: &str, _: &[&str]) -> Result<(), String> {
    Ok(())
}

fn names(v: &[&str]) -> Vec<String> {
    v.iter().map(|x| x.to_string()).collect()
}

fn graph_of(rules: &[(&str, &[&str])]) -> Result<DepGraph<fn(&str, &[&str]) -> Result<(), String>>, Error> {
    let mut b: DepGraphBuilder<fn(&str, &[&str]) -> Result<(), String>> = DepGraphBuilder::new();
    for (out, deps) in rules {
        b = b.add_rule(out.to_string(), &names(deps), noop);
    }
    b.build()
}

fn node_of<F>(g: &DepGraph<F>, p: &str) -> usize {
    (0..g.node_count()).find(|i| g.path(*i) == p).unwrap()
}

#[test]
fn smoke_test() {
    let w = Rc::new(World::default());
    let tmp = "depgraph-tests";
    let at = |f: &str| format!("{}/{}", tmp, f);
    println!("tmp dir {:?}", tmp);
    let makegraph = DepGraphBuilder::<Step>::new()
        .add_rule(at("File1"), &[at("file2"), at("file3")], copy_build(&w))
        .add_rule(at("file2"), &[at("file3")], copy_build(&w))
        .add_rule(at("file4"), &[at("file5")], copy_build(&w))
        .build()
        .unwrap();
    w.write(&at("file3"), "file3\n");
    w.write(&at("file5"), "file5\n");
    make_in(&w, &makegraph, MakeParams::Normal).0.unwrap();
    assert_eq!(w.read(&at("File1")).unwrap(), "file3\nfile3\n");
    assert_eq!(w.read(&at("file4")).unwrap(), "file5\n");
}

#[test]
fn node_count_is_outputs_plus_leaves() {
    let g = graph_of(&[("File1", &["file2", "file3"]), ("file2", &["file3"]), ("file4", &["file5"])]).unwrap();
    assert_eq!(g.node_count(), 5);
    // outputs first, in rule order, then leaves as first met
    let paths: Vec<&str> = (0..5).map(|i| g.path(i).as_str()).collect();
    assert_eq!(paths, vec!["File1", "file2", "file4", "file3", "file5"]);
    assert_eq!(g.dependencies(0), &vec![1, 3]);
    assert_eq!(g.dependencies(1), &vec![3]);
    assert_eq!(g.dependencies(3), &Vec::<usize>::new());
    assert!(g.build_fn(2).is_some());
    assert!(g.build_fn(3).is_none());
}

#[test]
fn shared_leaf_is_one_node() {
    let g = graph_of(&[("a", &["x"]), ("b", &["x", "x"])]).unwrap();
    assert_eq!(g.node_count(), 3);
}

#[test]
fn forward_reference_is_an_edge() {
    let g = graph_of(&[("a", &["b"]), ("b", &["c"])]).unwrap();
    assert_eq!(g.node_count(), 3);
    assert_eq!(g.dependencies(0), &vec![1]);
}

#[test]
fn empty_rules_build_and_finish() {
    let g = graph_of(&[]).unwrap();
    assert_eq!(g.node_count(), 0);
    let (_, a) = MakeRun::start(&g, MakeParams::Normal);
    assert!(matches!(a, Action::Finish(Ok(()))));
}

#[test]
fn two_rule_cycle_is_refused() {
    assert!(matches!(graph_of(&[("a", &["b"]), ("b", &["a"])]), Err(Error::Cycle)));
}

#[test]
fn self_dependency_is_refused() {
    assert!(matches!(graph_of(&[("a", &["a"])]), Err(Error::Cycle)));
}

#[test]
fn long_cycle_is_refused() {
    assert!(matches!(graph_of(&[("a", &["b", "z"]), ("b", &["c"]), ("c", &["a"])]), Err(Error::Cycle)));
}

#[test]
fn duplicate_output_is_refused() {
    assert!(matches!(graph_of(&[("a", &["b"]), ("a", &["c"])]), Err(Error::DuplicateFile)));
    assert!(matches!(graph_of(&[("a", &["c"]), ("x", &[]), ("a", &["b"])]), Err(Error::DuplicateFile)));
}

#[test]
fn duplicate_wins_over_cycle() {
    assert!(matches!(graph_of(&[("a", &["a"]), ("a", &[])]), Err(Error::DuplicateFile)));
}

#[test]
fn build_order_puts_dependencies_first() {
    let g = graph_of(&[("top", &["mid", "leaf"]), ("mid", &["leaf"])]).unwrap();
    let order = g.build_order().unwrap();
    let pos = |p: &str| order.iter().position(|n| *n == node_of(&g, p)).unwrap();
    assert_eq!(order.len(), 3);
    assert!(pos("leaf") < pos("mid"));
    assert!(pos("mid") < pos("top"));
}

#[test]
fn dependencies_newer_cases() {
    assert!(dependencies_newer(None, &vec![]));
    assert!(!dependencies_newer(Some(10), &vec![]));
    assert!(!dependencies_newer(Some(10), &vec![Some(10), Some(3)]));
    assert!(dependencies_newer(Some(10), &vec![Some(3), Some(11)]));
}

/// A graph with one rule `out` from `a`: node 0 is `out`, node 1 is `a`.
fn one_rule() -> DepGraph<fn(&str, &[&str]) -> Result<(), String>> {
    graph_of(&[("out", &["a"])]).unwrap()
}

/// Starts a run and answers the leaf's inspection; returns the action for `out`.
fn past_leaf(g: &DepGraph<fn(&str, &[&str]) -> Result<(), String>>, params: MakeParams) -> MakeRun {
    let (mut run, a) = MakeRun::start(g, params);
    assert!(matches!(a, Action::Inspect(1)));
    let a = run.step(g, Event::Inspected(vec![], Some(5)));
    assert!(matches!(a, Action::Inspect(0)));
    run
}

#[test]
fn stale_output_is_rebuilt() {
    let g = one_rule();
    let mut run = past_leaf(&g, MakeParams::Normal);
    let a = run.step(&g, Event::Inspected(vec![Some(5)], Some(4)));
    assert!(matches!(a, Action::Run(0)));
    let a = run.step(&g, Event::Ran(Ok(())));
    assert!(matches!(a, Action::Verify(0)));
    let a = run.step(&g, Event::Verified(true));
    assert!(matches!(a, Action::Finish(Ok(()))));
}

#[test]
fn missing_output_is_built() {
    let g = one_rule();
    let mut run = past_leaf(&g, MakeParams::Normal);
    assert!(matches!(run.step(&g, Event::Inspected(vec![Some(5)], None)), Action::Run(0)));
}

#[test]
fn equal_times_are_up_to_date() {
    let g = one_rule();
    let mut run = past_leaf(&g, MakeParams::Normal);
    let a = run.step(&g, Event::Inspected(vec![Some(5)], Some(5)));
    assert!(matches!(a, Action::Finish(Ok(()))));
}

#[test]
fn up_to_date_output_is_not_rebuilt() {
    let g = one_rule();
    let mut run = past_leaf(&g, MakeParams::Normal);
    let a = run.step(&g, Event::Inspected(vec![Some(5)], Some(9)));
    assert!(matches!(a, Action::Finish(Ok(()))));
}

#[test]
fn force_rebuilds_up_to_date_output() {
    let g = one_rule();
    let mut run = past_leaf(&g, MakeParams::ForceBuild);
    let a = run.step(&g, Event::Inspected(vec![Some(5)], Some(9)));
    assert!(matches!(a, Action::Run(0)));
}

#[test]
fn missing_dependency_stops_before_build() {
    let g = graph_of(&[("out", &["a", "b"])]).unwrap();
    let (mut run, mut a) = MakeRun::start(&g, MakeParams::ForceBuild);
    // the leaves come first and exist
    while let Action::Inspect(n) = a {
        if n == 0 {
            break;
        }
        a = run.step(&g, Event::Inspected(vec![], Some(1)));
    }
    assert!(matches!(a, Action::Inspect(0)));
    let a = run.step(&g, Event::Inspected(vec![Some(1), None], Some(9)));
    match a {
        Action::Finish(Err(Error::MissingFile(p))) => assert_eq!(p, "b"),
        other => panic!("unexpected {:?}", other),
    }
}

#[test]
fn missing_leaf_is_reported() {
    let g = one_rule();
    let (mut run, _) = MakeRun::start(&g, MakeParams::Normal);
    match run.step(&g, Event::Inspected(vec![], None)) {
        Action::Finish(Err(Error::MissingFile(p))) => assert_eq!(p, "a"),
        other => panic!("unexpected {:?}", other),
    }
}

#[test]
fn failed_step_carries_message() {
    let g = one_rule();
    let mut run = past_leaf(&g, MakeParams::Normal);
    assert!(matches!(run.step(&g, Event::Inspected(vec![Some(5)], None)), Action::Run(0)));
    match run.step(&g, Event::Ran(Err("compiler exploded".to_string()))) {
        Action::Finish(Err(Error::BuildFailed(m))) => assert_eq!(m, "compiler exploded"),
        other => panic!("unexpected {:?}", other),
    }
}

#[test]
fn step_that_makes_nothing_is_reported() {
    let g = one_rule();
    let mut run = past_leaf(&g, MakeParams::Normal);
    assert!(matches!(run.step(&g, Event::Inspected(vec![Some(5)], None)), Action::Run(0)));
    assert!(matches!(run.step(&g, Event::Ran(Ok(()))), Action::Verify(0)));
    match run.step(&g, Event::Verified(false)) {
        Action::Finish(Err(Error::MissingFile(p))) => assert_eq!(p, "out"),
        other => panic!("unexpected {:?}", other),
    }
}

#[test]
fn concatenation_end_to_end() {
    let w = Rc::new(World::default());
    w.write("a", "alpha\n");
    w.write("b", "beta\n");
    let calls = Rc::new(Cell::new(0));
    let counter = calls.clone();
    let inner = copy_build(&w);
    let step: Step = Box::new(move |out: &str, deps: &[&str]| {
        counter.set(counter.get() + 1);
        inner(out, deps)
    });
    let g = DepGraphBuilder::<Step>::new().add_rule(s("out"), &[s("a"), s("b")], step).build().unwrap();
    let (r, ran) = make_in(&w, &g, MakeParams::Normal);
    assert!(r.is_ok());
    assert_eq!(ran, vec![0]);
    assert_eq!(calls.get(), 1);
    assert_eq!(w.read("out").unwrap(), "alpha\nbeta\n");
    let (r, ran) = make_in(&w, &g, MakeParams::Normal);
    assert!(r.is_ok());
    assert!(ran.is_empty());
    assert_eq!(calls.get(), 1);
    let (r, ran) = make_in(&w, &g, MakeParams::ForceBuild);
    assert!(r.is_ok());
    assert_eq!(ran, vec![0]);
    assert_eq!(calls.get(), 2);
}

#[test]
fn touched_source_rebuilds_dependents() {
    let w = Rc::new(World::default());
    w.write("src", "one");
    let g = DepGraphBuilder::<Step>::new()
        .add_rule(s("mid"), &[s("src")], copy_build(&w))
        .add_rule(s("top"), &[s("mid")], copy_build(&w))
        .build()
        .unwrap();
    assert_eq!(make_in(&w, &g, MakeParams::Normal).1, vec![0, 1]);
    assert!(make_in(&w, &g, MakeParams::Normal).1.is_empty());
    w.write("src", "two");
    assert_eq!(make_in(&w, &g, MakeParams::Normal).1, vec![0, 1]);
    assert_eq!(w.read("top").unwrap(), "two");
}

#[test]
fn missing_source_stops_chain() {
    let w = Rc::new(World::default());
    let g = DepGraphBuilder::<Step>::new()
        .add_rule(s("r1"), &[s("r2")], copy_build(&w))
        .add_rule(s("r2"), &[s("c")], copy_build(&w))
        .build()
        .unwrap();
    let (r, ran) = make_in(&w, &g, MakeParams::Normal);
    match r {
        Err(Error::MissingFile(p)) => assert_eq!(p, "c"),
        other => panic!("unexpected {:?}", other),
    }
    assert!(ran.is_empty());
    assert!(w.read("r1").is_none());
    assert!(w.read("r2").is_none());
}
