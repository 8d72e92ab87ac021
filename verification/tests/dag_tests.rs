use forge::dag::{InternalTask, Task, TaskAction, TaskGraph};
use forge::error::ForgeError;

fn make_task(name: &str, deps: &[&str], action: TaskAction) -> Task {
    Task {
        name: name.to_string(),
        description: format!("Tarea: {}", name),
        depends_on: deps.iter().map(|s| s.to_string()).collect(),
        action,
    }
}

#[test]
fn test_topological_order() {
    let mut graph = TaskGraph::new();
    graph
        .add_task(make_task("clean", &[], TaskAction::Internal(InternalTask::Clean)))
        .unwrap();
    graph
        .add_task(make_task("compile", &["clean"], TaskAction::Internal(InternalTask::Compile)))
        .unwrap();
    graph
        .add_task(make_task("test", &["compile"], TaskAction::Internal(InternalTask::Test)))
        .unwrap();
    graph
        .add_task(make_task("package", &["compile"], TaskAction::Internal(InternalTask::Package)))
        .unwrap();

    let order = graph.topological_order().unwrap();
    let clean_pos = order.iter().position(|t| t == "clean").unwrap();
    let compile_pos = order.iter().position(|t| t == "compile").unwrap();
    let test_pos = order.iter().position(|t| t == "test").unwrap();

    assert!(clean_pos < compile_pos);
    assert!(compile_pos < test_pos);
}

#[test]
fn test_cycle_detection() {
    let mut graph = TaskGraph::new();
    graph
        .add_task(make_task("a", &["b"], TaskAction::Composite))
        .unwrap();
    graph
        .add_task(make_task("b", &["c"], TaskAction::Composite))
        .unwrap();
    graph
        .add_task(make_task("c", &["a"], TaskAction::Composite))
        .unwrap();

    assert!(graph.validate().is_err());
}

#[test]
fn test_parallel_levels() {
    let mut graph = TaskGraph::new();
    graph
        .add_task(make_task("deps", &[], TaskAction::Internal(InternalTask::ResolveDeps)))
        .unwrap();
    graph
        .add_task(make_task("compile", &["deps"], TaskAction::Internal(InternalTask::Compile)))
        .unwrap();
    graph
        .add_task(make_task("test", &["compile"], TaskAction::Internal(InternalTask::Test)))
        .unwrap();
    graph
        .add_task(make_task("lint", &["compile"], TaskAction::Composite))
        .unwrap();

    let levels = graph.parallel_levels().unwrap();

    assert!(levels[0].contains(&"deps".to_string()));
    assert!(levels[1].contains(&"compile".to_string()));
    assert!(levels[2].contains(&"test".to_string()));
    assert!(levels[2].contains(&"lint".to_string()));
}

#[test]
fn cycle_is_reported_in_walking_order() {
    let mut graph = TaskGraph::new();
    graph.add_task(make_task("a", &["b"], TaskAction::Composite)).unwrap();
    graph.add_task(make_task("b", &["c"], TaskAction::Composite)).unwrap();
    graph.add_task(make_task("c", &["a"], TaskAction::Composite)).unwrap();
    match graph.validate() {
        Err(ForgeError::CyclicDependency { cycle }) => assert_eq!(cycle, "a → b → c → a"),
        other => panic!("unexpected: {:?}", other),
    }
}

fn graph_of(tasks: &[(&str, &[&str])]) -> TaskGraph {
    let mut graph = TaskGraph::new();
    for (name, deps) in tasks {
        graph.add_task(make_task(name, deps, TaskAction::Composite)).unwrap();
    }
    graph
}

fn strings(names: &[&str]) -> Vec<String> {
    names.iter().map(|s| s.to_string()).collect()
}

#[test]
fn levels_of_clean_compile_test_lint() {
    let graph = graph_of(&[("clean", &[]), ("compile", &["clean"]), ("test", &["compile"]), ("lint", &["compile"])]);
    let levels = graph.parallel_levels().unwrap();
    assert_eq!(levels, vec![strings(&["clean"]), strings(&["compile"]), strings(&["test", "lint"])]);
}

#[test]
fn levels_follow_the_longest_chain_of_dependencies() {
    let graph = graph_of(&[
        ("e", &["a", "d"]),
        ("d", &["c"]),
        ("c", &["b"]),
        ("b", &[]),
        ("a", &[]),
        ("f", &["a"]),
    ]);
    let levels = graph.parallel_levels().unwrap();
    assert_eq!(
        levels,
        vec![strings(&["b", "a"]), strings(&["c", "f"]), strings(&["d"]), strings(&["e"])]
    );
}

#[test]
fn levels_take_a_repeated_dependency_as_one() {
    let graph = graph_of(&[("a", &[]), ("b", &["a", "a"])]);
    assert_eq!(graph.parallel_levels().unwrap(), vec![strings(&["a"]), strings(&["b"])]);
}

#[test]
fn empty_graph_has_no_levels_and_an_empty_order() {
    let graph = TaskGraph::new();
    assert!(graph.is_empty());
    assert_eq!(graph.len(), 0);
    assert!(graph.validate().is_ok());
    assert!(graph.parallel_levels().unwrap().is_empty());
    assert!(graph.topological_order().unwrap().is_empty());
}

#[test]
fn topological_order_is_a_permutation_with_dependencies_first() {
    let tasks: Vec<(&str, &[&str])> = vec![
        ("package", &["test", "lint"]),
        ("test", &["compile"]),
        ("lint", &["compile"]),
        ("compile", &["deps", "clean"]),
        ("deps", &[]),
        ("clean", &[]),
        ("docs", &[]),
    ];
    let graph = graph_of(&tasks);
    let order = graph.topological_order().unwrap();
    assert_eq!(order.len(), tasks.len());
    for (name, deps) in &tasks {
        let at = order.iter().position(|t| t == name).unwrap();
        for dep in deps.iter() {
            let dep_at = order.iter().position(|t| t == dep).unwrap();
            assert!(dep_at < at);
        }
    }
}

#[test]
fn topological_order_is_first_in_first_out_with_insertion_order_for_ties() {
    let graph = graph_of(&[
        ("package", &["test", "lint"]),
        ("test", &["compile"]),
        ("lint", &["compile"]),
        ("compile", &["deps", "clean"]),
        ("deps", &[]),
        ("clean", &[]),
        ("docs", &[]),
    ]);
    assert_eq!(
        graph.topological_order().unwrap(),
        strings(&["deps", "clean", "docs", "compile", "test", "lint", "package"])
    );
}

#[test]
fn task_that_lists_a_dependency_twice_never_becomes_ready() {
    let graph = graph_of(&[("a", &[]), ("b", &["a", "a"]), ("c", &["b"]), ("d", &["a"])]);
    assert_eq!(graph.topological_order().unwrap(), strings(&["a", "d"]));
}

#[test]
fn self_dependency_is_a_cycle() {
    let graph = graph_of(&[("a", &["a"])]);
    match graph.validate() {
        Err(ForgeError::CyclicDependency { cycle }) => assert_eq!(cycle, "a → a"),
        other => panic!("unexpected: {:?}", other),
    }
}

#[test]
fn cycle_is_reported_without_the_path_that_leads_to_it() {
    let graph = graph_of(&[("start", &["a"]), ("a", &["b"]), ("b", &["c"]), ("c", &["a"])]);
    match graph.validate() {
        Err(ForgeError::CyclicDependency { cycle }) => assert_eq!(cycle, "a → b → c → a"),
        other => panic!("unexpected: {:?}", other),
    }
    assert!(matches!(graph.topological_order(), Err(ForgeError::CyclicDependency { .. })));
    assert!(matches!(graph.parallel_levels(), Err(ForgeError::CyclicDependency { .. })));
}

#[test]
fn dependency_on_a_missing_task_is_reported_with_the_task_that_names_it() {
    let graph = graph_of(&[("a", &[]), ("b", &["a", "ghost", "phantom"]), ("c", &["nothing"])]);
    match graph.validate() {
        Err(ForgeError::TaskNotFound { task_name }) => {
            assert_eq!(task_name, "'ghost' (referenciada por 'b')")
        },
        other => panic!("unexpected: {:?}", other),
    }
    assert!(matches!(graph.topological_order(), Err(ForgeError::TaskNotFound { .. })));
    assert!(matches!(graph.parallel_levels(), Err(ForgeError::TaskNotFound { .. })));
}

#[test]
fn cycle_is_reported_before_a_missing_task() {
    let graph = graph_of(&[("a", &["ghost"]), ("b", &["c"]), ("c", &["b"])]);
    assert!(matches!(graph.validate(), Err(ForgeError::CyclicDependency { .. })));
}

#[test]
fn task_of_the_same_name_is_replaced_in_place() {
    let mut graph = graph_of(&[("a", &[]), ("b", &["a"]), ("c", &["b"])]);
    graph
        .add_task(Task {
            name: "b".to_string(),
            description: "second".to_string(),
            depends_on: vec![],
            action: TaskAction::Command("true".to_string()),
        })
        .unwrap();
    assert_eq!(graph.len(), 3);
    assert_eq!(graph.get_task("b").unwrap().description, "second");
    assert!(graph.get_task("b").unwrap().depends_on.is_empty());
    assert_eq!(graph.parallel_levels().unwrap(), vec![strings(&["a", "b"]), strings(&["c"])]);
}

#[test]
fn get_task_finds_by_name() {
    let graph = graph_of(&[("a", &[]), ("b", &["a"])]);
    assert_eq!(graph.get_task("b").unwrap().depends_on, strings(&["a"]));
    assert!(graph.get_task("c").is_none());
    assert!(graph.get_task("").is_none());
    assert!(!graph.is_empty());
    assert_eq!(graph.len(), 2);
    assert!(TaskGraph::default().is_empty());
}
