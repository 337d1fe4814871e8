use unpanic::function_collectors::{get_call_in_block, get_functions, solve_arg};
use unpanic::function_handlers::{is_panic, is_runtime};
use unpanic::hir_traverser::{Action, AnalysisError, Dependency, HirTraverser};
use unpanic::model::{
    Expr, Frame, Function, FunctionId, FunctionRef, Implementation, Label, Target, TypeId, Unit,
};
use unpanic::pending::ForeignCallsToCheck;
use unpanic::traversers::{FunctionCallPartialTree, HirId_};

fn id(unit: u64, index: u64) -> FunctionId {
    FunctionId { unit, index }
}

fn frame(description: &str, location: &str) -> Frame {
    Frame { description: description.to_string(), location: location.to_string() }
}

fn reference(id: FunctionId, name: &str, owner: &str) -> FunctionRef {
    FunctionRef { id, name: name.to_string(), owner: owner.to_string() }
}

fn call(function: FunctionRef, site: &str, args: Vec<Expr>) -> Expr {
    Expr::Call {
        target: Target::Function(function),
        site: site.to_string(),
        parameter: None,
        receiver: None,
        args,
    }
}

fn plain() -> Label {
    Label { restricts: false, suppresses: false }
}

fn block(body: Vec<Expr>) -> Expr {
    Expr::Block { label: plain(), body }
}

fn deny(body: Vec<Expr>) -> Expr {
    Expr::Block { label: Label { restricts: true, suppresses: false }, body }
}

fn allow(body: Vec<Expr>) -> Expr {
    Expr::Block { label: Label { restricts: false, suppresses: true }, body }
}

fn function(id: FunctionId, name: &str, location: &str, body: Expr) -> Function {
    Function { id, name: name.to_string(), location: location.to_string(), body }
}

fn unit(name: &str, functions: Vec<Function>) -> Unit {
    Unit { name: name.to_string(), functions, implementations: Vec::new() }
}

fn primitive() -> FunctionRef {
    reference(id(1, 7), "panic", "core")
}

fn analyse(target: &Unit, dependencies: &[&Unit]) -> Result<HirTraverser, AnalysisError> {
    let dep_map = dependencies
        .iter()
        .map(|unit| Dependency {
            name: unit.name.clone(),
            build_script: None,
            args: vec![unit.name.clone()],
        })
        .collect();
    let mut analysis = HirTraverser::new(vec!["<target>".to_string()], dep_map, String::new());
    let mut action = analysis.start();
    let mut rounds = 0;
    loop {
        rounds += 1;
        assert!(rounds < 1000);
        match action {
            Action::Finish => return Ok(analysis),
            Action::Load(args) => {
                let wanted = if args[0] == "<target>" {
                    target
                } else {
                    match dependencies.iter().find(|unit| unit.name == args[0]) {
                        Some(found) => *found,
                        None => panic!("asked for a unit that is no dependency"),
                    }
                };
                action = analysis.resume(wanted)?;
            },
        }
    }
}

#[test]
fn panic_primitives_are_recognised_by_unit_and_symbol() {
    assert!(is_panic("core", "panic"));
    assert!(is_panic("std", "begin_panic"));
    assert!(!is_panic("std", "panic"));
    assert!(!is_panic("core", "begin_panic"));
    assert!(!is_panic("alloc", "panic"));
    assert!(is_runtime("std"));
    assert!(is_runtime("core"));
    assert!(!is_runtime("alloc"));
}

#[test]
fn local_chain_to_primitive_gives_one_finding() {
    let f = id(10, 0);
    let g = id(10, 1);
    let target = unit(
        "bin",
        vec![
            function(
                f,
                "f",
                "bin.rs:1",
                block(vec![deny(vec![
                    call(reference(g, "g", "bin"), "bin.rs:2", vec![]),
                    call(reference(g, "g", "bin"), "bin.rs:3", vec![]),
                ])]),
            ),
            function(g, "g", "bin.rs:5", block(vec![call(primitive(), "bin.rs:6", vec![])])),
        ],
    );
    let analysis = analyse(&target, &[]).unwrap();
    assert_eq!(
        analysis.to_log,
        vec![vec![frame("f", "bin.rs:1"), frame("g", "bin.rs:2"), frame("panic", "bin.rs:6")]]
    );
    assert!(analysis.allowed.is_empty());
}

#[test]
fn cross_unit_sink_is_found_after_the_dependency_is_loaded() {
    let sink = id(20, 0);
    let library = unit(
        "lib",
        vec![function(sink, "sink", "lib.rs:1", block(vec![call(primitive(), "lib.rs:2", vec![])]))],
    );
    let target = unit(
        "bin",
        vec![function(
            id(10, 0),
            "f",
            "bin.rs:1",
            block(vec![deny(vec![call(reference(sink, "sink", "lib"), "bin.rs:2", vec![])])]),
        )],
    );
    let analysis = analyse(&target, &[&library]).unwrap();
    assert_eq!(
        analysis.to_log,
        vec![vec![frame("f", "bin.rs:1"), frame("sink", "bin.rs:2"), frame("panic", "lib.rs:2")]]
    );
    let finding = &analysis.to_log[0];
    assert_eq!(finding[finding.len() - 2..], [frame("sink", "bin.rs:2"), frame("panic", "lib.rs:2")]);
    assert!(analysis.function_to_check.keys().is_empty());
}

#[test]
fn suppressed_call_gives_an_event_and_no_finding() {
    let sink = id(20, 0);
    let target = unit(
        "bin",
        vec![function(
            id(10, 0),
            "g",
            "bin.rs:1",
            block(vec![deny(vec![allow(vec![call(reference(sink, "sink", "lib"), "bin.rs:3", vec![])])])]),
        )],
    );
    let library = unit(
        "lib",
        vec![function(sink, "sink", "lib.rs:1", block(vec![call(primitive(), "lib.rs:2", vec![])]))],
    );
    let analysis = analyse(&target, &[&library]).unwrap();
    assert!(analysis.to_log.is_empty());
    assert_eq!(analysis.allowed, vec![vec![frame("g", "bin.rs:1")]]);
}

#[test]
fn self_recursion_terminates_without_findings() {
    let loopy = id(10, 0);
    let target = unit(
        "bin",
        vec![function(
            loopy,
            "loopy",
            "bin.rs:1",
            block(vec![deny(vec![call(reference(loopy, "loopy", "bin"), "bin.rs:2", vec![])])]),
        )],
    );
    let analysis = analyse(&target, &[]).unwrap();
    assert!(analysis.to_log.is_empty());
    assert!(analysis.allowed.is_empty());
}

#[test]
fn mutual_recursion_terminates() {
    let a = id(10, 0);
    let b = id(10, 1);
    let target = unit(
        "bin",
        vec![
            function(
                a,
                "a",
                "bin.rs:1",
                block(vec![deny(vec![call(reference(b, "b", "bin"), "bin.rs:2", vec![])])]),
            ),
            function(
                b,
                "b",
                "bin.rs:4",
                block(vec![
                    call(reference(a, "a", "bin"), "bin.rs:5", vec![]),
                    call(primitive(), "bin.rs:6", vec![]),
                ]),
            ),
        ],
    );
    let analysis = analyse(&target, &[]).unwrap();
    assert_eq!(
        analysis.to_log,
        vec![vec![frame("a", "bin.rs:1"), frame("b", "bin.rs:2"), frame("panic", "bin.rs:6")]]
    );
}

#[test]
fn closure_handed_to_a_called_parameter_is_checked() {
    let h = id(10, 0);
    let caller = id(10, 1);
    let through_parameter = Expr::Call {
        target: Target::Binding { through: None },
        site: "bin.rs:2".to_string(),
        parameter: Some(0),
        receiver: None,
        args: vec![],
    };
    let closure = Expr::Closure(Box::new(call(primitive(), "bin.rs:9", vec![])));
    let target = unit(
        "bin",
        vec![
            function(h, "h", "bin.rs:1", block(vec![deny(vec![through_parameter])])),
            function(
                caller,
                "caller",
                "bin.rs:8",
                block(vec![call(reference(h, "h", "bin"), "bin.rs:9", vec![closure])]),
            ),
        ],
    );
    let analysis = analyse(&target, &[]).unwrap();
    assert_eq!(
        analysis.to_log,
        vec![vec![frame("caller", "bin.rs:9"), frame("panic", "bin.rs:9")]]
    );
    assert!(analysis.to_log[0].iter().any(|frame| frame.location == "bin.rs:9"));
}

#[test]
fn receiver_fills_the_first_parameter_of_a_method() {
    let method = id(10, 0);
    let caller = id(10, 1);
    let through_parameter = Expr::Call {
        target: Target::Binding { through: None },
        site: "bin.rs:2".to_string(),
        parameter: Some(1),
        receiver: None,
        args: vec![],
    };
    let harmless = Expr::Closure(Box::new(Expr::Node(vec![])));
    let closure = Expr::Closure(Box::new(call(primitive(), "bin.rs:9", vec![])));
    let method_call = Expr::Call {
        target: Target::Method { function: reference(method, "deny_p", "bin"), receiver: None },
        site: "bin.rs:9".to_string(),
        parameter: None,
        receiver: Some(Box::new(Expr::Binding { type_id: None })),
        args: vec![closure, harmless],
    };
    let target = unit(
        "bin",
        vec![
            function(method, "deny_p", "bin.rs:1", block(vec![deny(vec![through_parameter])])),
            function(caller, "test", "bin.rs:8", block(vec![method_call])),
        ],
    );
    let analysis = analyse(&target, &[]).unwrap();
    assert_eq!(analysis.to_log, vec![vec![frame("test", "bin.rs:9"), frame("panic", "bin.rs:9")]]);
}

#[test]
fn trait_method_goes_to_the_local_implementation() {
    let method = id(30, 0);
    let implementation = id(10, 1);
    let ty = TypeId { unit: 10, index: 5 };
    let trait_call = Expr::Call {
        target: Target::TraitMethod {
            method: reference(method, "trait_0", "traits"),
            receiver: Some(ty),
        },
        site: "bin.rs:2".to_string(),
        parameter: None,
        receiver: Some(Box::new(Expr::Binding { type_id: Some(ty) })),
        args: vec![],
    };
    let target = Unit {
        name: "bin".to_string(),
        functions: vec![
            function(id(10, 0), "f", "bin.rs:1", block(vec![deny(vec![trait_call])])),
            function(
                implementation,
                "trait_0",
                "bin.rs:4",
                block(vec![call(primitive(), "bin.rs:5", vec![])]),
            ),
        ],
        implementations: vec![Implementation { method, receiver: ty, function: implementation }],
    };
    let analysis = analyse(&target, &[]).unwrap();
    assert_eq!(
        analysis.to_log,
        vec![vec![frame("f", "bin.rs:1"), frame("trait_0", "bin.rs:2"), frame("panic", "bin.rs:5")]]
    );
}

#[test]
fn trait_method_is_resolved_in_the_unit_that_implements_it() {
    let method = id(30, 0);
    let implementation = id(30, 1);
    let ty = TypeId { unit: 30, index: 5 };
    let trait_call = Expr::Call {
        target: Target::TraitMethod {
            method: reference(method, "trait_0", "traits"),
            receiver: Some(ty),
        },
        site: "bin.rs:2".to_string(),
        parameter: None,
        receiver: None,
        args: vec![],
    };
    let target =
        unit("bin", vec![function(id(10, 0), "f", "bin.rs:1", block(vec![deny(vec![trait_call])]))]);
    let traits = Unit {
        name: "traits".to_string(),
        functions: vec![function(
            implementation,
            "trait_0",
            "traits.rs:4",
            block(vec![call(primitive(), "traits.rs:5", vec![])]),
        )],
        implementations: vec![Implementation { method, receiver: ty, function: implementation }],
    };
    let analysis = analyse(&target, &[&traits]).unwrap();
    assert_eq!(
        analysis.to_log,
        vec![vec![
            frame("f", "bin.rs:1"),
            frame("trait_0", "bin.rs:2"),
            frame("panic", "traits.rs:5")
        ]]
    );
}

#[test]
fn target_without_region_is_refused() {
    let target = unit("bin", vec![function(id(10, 0), "f", "bin.rs:1", block(vec![]))]);
    assert_eq!(analyse(&target, &[]).err(), Some(AnalysisError::NoRestrictedRegion));
}

#[test]
fn region_in_a_let_is_not_a_region() {
    let nested = Expr::Node(vec![deny(vec![call(primitive(), "bin.rs:2", vec![])])]);
    let target = unit("bin", vec![function(id(10, 0), "f", "bin.rs:1", block(vec![nested]))]);
    assert!(get_functions(&target).is_empty());
    assert_eq!(analyse(&target, &[]).err(), Some(AnalysisError::NoRestrictedRegion));
}

#[test]
fn call_into_an_unknown_unit_is_an_error() {
    let target = unit(
        "bin",
        vec![function(
            id(10, 0),
            "f",
            "bin.rs:1",
            block(vec![deny(vec![call(reference(id(40, 0), "gone", "nowhere"), "bin.rs:2", vec![])])]),
        )],
    );
    assert_eq!(
        analyse(&target, &[]).err(),
        Some(AnalysisError::UnknownUnit("nowhere".to_string()))
    );
}

#[test]
fn resumed_function_without_body_is_an_error() {
    let gone = id(20, 3);
    let target = unit(
        "bin",
        vec![function(
            id(10, 0),
            "f",
            "bin.rs:1",
            block(vec![deny(vec![call(reference(gone, "gone", "lib"), "bin.rs:2", vec![])])]),
        )],
    );
    let library = unit("lib", vec![]);
    assert_eq!(analyse(&target, &[&library]).err(), Some(AnalysisError::MissingBody(gone)));
}

#[test]
fn units_are_taken_only_when_asked_for() {
    let target = unit(
        "bin",
        vec![function(id(10, 0), "f", "bin.rs:1", block(vec![deny(vec![])]))],
    );
    let other = unit("other", vec![]);
    let mut analysis = HirTraverser::new(vec!["<target>".to_string()], vec![], String::new());
    assert_eq!(analysis.resume(&target), Err(AnalysisError::OutOfTurn));
    let mut analysis = HirTraverser::new(
        vec!["<target>".to_string()],
        vec![Dependency { name: "lib".to_string(), build_script: None, args: vec![] }],
        String::new(),
    );
    assert_eq!(analysis.start(), Action::Load(vec!["<target>".to_string()]));
    assert_eq!(analysis.resume(&target), Ok(Action::Load(vec![])));
    assert_eq!(
        analysis.resume(&other),
        Err(AnalysisError::UnexpectedUnit("other".to_string()))
    );
}

#[test]
fn runtime_units_are_never_asked_for() {
    let target = unit(
        "bin",
        vec![function(
            id(10, 0),
            "f",
            "bin.rs:1",
            block(vec![deny(vec![call(reference(id(1, 9), "len", "core"), "bin.rs:2", vec![])])]),
        )],
    );
    let mut analysis = HirTraverser::new(
        vec!["<target>".to_string()],
        vec![
            Dependency { name: "std".to_string(), build_script: None, args: vec![] },
            Dependency { name: "core".to_string(), build_script: None, args: vec![] },
        ],
        String::new(),
    );
    analysis.start();
    assert!(analysis.dep_map.is_empty());
    assert_eq!(analysis.resume(&target), Ok(Action::Load(vec!["<target>".to_string()])));
    assert_eq!(analysis.resume(&target), Ok(Action::Finish));
    assert!(analysis.to_log.is_empty());
}

#[test]
fn every_dependency_is_loaded_once() {
    let target = unit(
        "bin",
        vec![function(id(10, 0), "f", "bin.rs:1", block(vec![deny(vec![])]))],
    );
    let library = unit(
        "lib",
        vec![function(
            id(20, 0),
            "deny_panic_in_dependency",
            "lib.rs:1",
            block(vec![deny(vec![call(primitive(), "lib.rs:2", vec![])])]),
        )],
    );
    let analysis = analyse(&target, &[&library]).unwrap();
    assert_eq!(analysis.visited_crates, vec!["bin".to_string(), "lib".to_string()]);
    assert_eq!(
        analysis.to_log,
        vec![vec![frame("deny_panic_in_dependency", "lib.rs:1"), frame("panic", "lib.rs:2")]]
    );
}

#[test]
fn walk_records_each_leaf_once_with_its_stack() {
    let outer = reference(id(20, 0), "outer", "lib");
    let target = unit("bin", vec![]);
    let mut tree = FunctionCallPartialTree::new(&target);
    let mut stack = vec![frame("f", "bin.rs:1")];
    let body = vec![
        call(reference(id(20, 0), "outer", "lib"), "bin.rs:2", vec![]),
        call(reference(id(20, 0), "outer", "lib"), "bin.rs:3", vec![]),
        Expr::Closure(Box::new(call(reference(id(20, 1), "inner", "lib"), "bin.rs:4", vec![]))),
    ];
    tree.traverse_block(&target, &body, &mut stack);
    assert_eq!(stack, vec![frame("f", "bin.rs:1")]);
    assert_eq!(tree.leaves.len(), 2);
    assert_eq!(tree.leaves[0].function, outer);
    assert_eq!(tree.leaves[0].stack, vec![frame("f", "bin.rs:1"), frame("outer", "bin.rs:2")]);
    assert_eq!(tree.leaves[1].stack, vec![frame("f", "bin.rs:1"), frame("inner", "bin.rs:4")]);
}

#[test]
fn calls_in_suppression_regions_are_not_collected() {
    let root = deny(vec![
        call(primitive(), "a", vec![call(primitive(), "b", vec![])]),
        allow(vec![call(primitive(), "c", vec![])]),
    ]);
    let calls = get_call_in_block(&root);
    assert_eq!(calls.len(), 2);
}

#[test]
fn arguments_that_cannot_be_followed_are_passed_over() {
    let target = unit("bin", vec![]);
    let closure = Expr::Closure(Box::new(Expr::Node(vec![])));
    assert!(solve_arg(&target, &closure, None).is_some());
    assert!(solve_arg(&target, &Expr::Binding { type_id: None }, None).is_none());
    assert!(solve_arg(&target, &Expr::Node(vec![]), None).is_none());
}

#[test]
fn pending_calls_are_kept_by_unit() {
    let mut pending = ForeignCallsToCheck::new();
    let stack = vec![frame("f", "x")];
    pending.save_for_later_check("lib", id(1, 1), &stack, None);
    pending.save_for_later_check("other", id(2, 1), &stack, None);
    pending.save_for_later_check("lib", id(1, 2), &stack, None);
    assert_eq!(pending.keys(), vec!["lib".to_string(), "other".to_string()]);
    let taken = pending.remove("lib").unwrap();
    assert_eq!(taken.len(), 2);
    assert_eq!(taken[1].function, id(1, 2));
    assert!(pending.remove("lib").is_none());
    assert_eq!(pending.keys(), vec!["other".to_string()]);
}

#[test]
fn identities_are_tagged_by_where_the_body_is() {
    let target = unit("bin", vec![function(id(10, 0), "f", "bin.rs:1", block(vec![]))]);
    assert_eq!(HirId_::of(&target, id(10, 0)), HirId_::Local(id(10, 0)));
    let away = HirId_::of(&target, id(10, 1));
    assert!(away.is_extern());
    assert_eq!(away.inner(), id(10, 1));
}

#[test]
fn closure_handed_across_units_is_checked() {
    let h = id(20, 0);
    let through_parameter = Expr::Call {
        target: Target::Binding { through: None },
        site: "lib.rs:3".to_string(),
        parameter: Some(0),
        receiver: None,
        args: vec![],
    };
    let library = unit(
        "lib",
        vec![function(h, "h", "lib.rs:1", block(vec![deny(vec![through_parameter])]))],
    );
    let closure = Expr::Closure(Box::new(call(primitive(), "bin.rs:7", vec![])));
    let harmless = Expr::Closure(Box::new(Expr::Node(vec![])));
    let target = unit(
        "bin",
        vec![
            function(id(10, 0), "checked", "bin.rs:1", block(vec![deny(vec![])])),
            function(
                id(10, 1),
                "caller",
                "bin.rs:5",
                block(vec![call(reference(h, "h", "lib"), "bin.rs:6", vec![closure, harmless])]),
            ),
        ],
    );
    let analysis = analyse(&target, &[&library]).unwrap();
    assert_eq!(
        analysis.to_log,
        vec![vec![frame("caller", "bin.rs:6"), frame("panic", "bin.rs:7")]]
    );
    assert_eq!(analysis.deny_panic_procedural_parameters.len(), 1);
    assert_eq!(analysis.deny_panic_procedural_parameters[0].function, h);
    assert_eq!(analysis.deny_panic_procedural_parameters[0].parameter, 0);
}

#[test]
fn variable_handed_to_a_called_parameter_is_resolved_by_its_type() {
    let clone = id(1, 40);
    let generic = id(10, 0);
    let implementation = id(10, 2);
    let ty = TypeId { unit: 10, index: 9 };
    let through_parameter = Expr::Call {
        target: Target::TraitMethod { method: reference(clone, "clone", "core"), receiver: None },
        site: "bin.rs:2".to_string(),
        parameter: Some(0),
        receiver: Some(Box::new(Expr::Binding { type_id: None })),
        args: vec![],
    };
    let target = Unit {
        name: "bin".to_string(),
        functions: vec![
            function(generic, "with_trait", "bin.rs:1", block(vec![deny(vec![through_parameter])])),
            function(
                id(10, 1),
                "caller",
                "bin.rs:5",
                block(vec![call(
                    reference(generic, "with_trait", "bin"),
                    "bin.rs:6",
                    vec![Expr::Binding { type_id: Some(ty) }],
                )]),
            ),
            function(
                implementation,
                "clone",
                "bin.rs:9",
                block(vec![call(primitive(), "bin.rs:10", vec![])]),
            ),
        ],
        implementations: vec![Implementation {
            method: clone,
            receiver: ty,
            function: implementation,
        }],
    };
    let analysis = analyse(&target, &[]).unwrap();
    assert_eq!(
        analysis.to_log,
        vec![vec![frame("caller", "bin.rs:6"), frame("panic", "bin.rs:10")]]
    );
}

#[test]
fn trait_method_without_implementation_is_passed_over() {
    let method = id(30, 0);
    let ty = TypeId { unit: 30, index: 5 };
    let trait_call = Expr::Call {
        target: Target::TraitMethod {
            method: reference(method, "trait_0", "traits"),
            receiver: Some(ty),
        },
        site: "bin.rs:2".to_string(),
        parameter: None,
        receiver: None,
        args: vec![],
    };
    let target =
        unit("bin", vec![function(id(10, 0), "f", "bin.rs:1", block(vec![deny(vec![trait_call])]))]);
    let traits = unit("traits", vec![]);
    let analysis = analyse(&target, &[&traits]).unwrap();
    assert!(analysis.to_log.is_empty());
    assert!(analysis.function_to_check.keys().is_empty());
}

#[test]
fn argument_that_cannot_be_followed_yields_nothing() {
    let h = id(10, 0);
    let through_parameter = Expr::Call {
        target: Target::Binding { through: None },
        site: "bin.rs:2".to_string(),
        parameter: Some(0),
        receiver: None,
        args: vec![],
    };
    let target = unit(
        "bin",
        vec![
            function(h, "h", "bin.rs:1", block(vec![deny(vec![through_parameter])])),
            function(
                id(10, 1),
                "caller",
                "bin.rs:5",
                block(vec![call(
                    reference(h, "h", "bin"),
                    "bin.rs:6",
                    vec![Expr::Binding { type_id: None }],
                )]),
            ),
        ],
    );
    let analysis = analyse(&target, &[]).unwrap();
    assert!(analysis.to_log.is_empty());
}

#[test]
fn each_region_is_walked_from_a_fresh_state() {
    let g = id(10, 1);
    let target = unit(
        "bin",
        vec![
            function(
                id(10, 0),
                "f",
                "bin.rs:1",
                block(vec![
                    deny(vec![call(reference(g, "g", "bin"), "bin.rs:2", vec![])]),
                    deny(vec![call(reference(g, "g", "bin"), "bin.rs:4", vec![])]),
                ]),
            ),
            function(g, "g", "bin.rs:7", block(vec![call(primitive(), "bin.rs:8", vec![])])),
        ],
    );
    let analysis = analyse(&target, &[]).unwrap();
    assert_eq!(
        analysis.to_log,
        vec![
            vec![frame("f", "bin.rs:1"), frame("g", "bin.rs:2"), frame("panic", "bin.rs:8")],
            vec![frame("f", "bin.rs:1"), frame("g", "bin.rs:4"), frame("panic", "bin.rs:8")],
        ]
    );
}
