use rtic_core::ast::{
    AppArgs, InitTask, InitTaskArgs, RticTask, SharedElement, SharedResources,
    SharedResourcesArgs, SubApp, TaskArgs,
};
use rtic_core::codegen::get_rtic_traits_mod;
use rtic_core::error::ErrorKind;
use rtic_core::pipeline::{Backend, Fragment, PassKind, Pipeline, PostPass, PrePass};

fn task(name: &str, irq: Option<&str>, priority: u16, shared: &[&str], core: u32) -> RticTask {
    RticTask {
        args: TaskArgs {
            interrupt_handler_name: irq.map(|s| s.to_string()),
            priority,
            shared_idents: shared.iter().map(|s| s.to_string()).collect(),
            core,
        },
        ident: name.to_string(),
    }
}

fn resources(name: &str, elems: &[(&str, &str, u16)], core: u32) -> SharedResources {
    SharedResources {
        args: SharedResourcesArgs { core },
        ident: name.to_string(),
        resources: elems
            .iter()
            .map(|(id, ty, p)| SharedElement { ident: id.to_string(), ty: ty.to_string(), priority: *p })
            .collect(),
    }
}

fn sub_app(
    core: u32,
    idle: Option<RticTask>,
    tasks: Vec<RticTask>,
    shared: Option<SharedResources>,
) -> SubApp {
    SubApp {
        core,
        init: InitTask { args: InitTaskArgs { core }, ident: format!("init{core}") },
        idle,
        tasks,
        shared,
    }
}

fn app_args(device: &str, cores: u32) -> AppArgs {
    AppArgs { device: device.to_string(), peripherals: false, cores }
}

#[test]
fn backend_capabilities() {
    let b = Backend::Hippo;
    assert_eq!(b.default_task_priority(), 0);
    assert_eq!(b.entry_name(0), "main");
    assert_eq!(b.entry_name(1), "main");
    assert!(!b.has_wfi());
    assert!(!b.supports_cross_pend());
}

#[test]
fn traits_module_declares_the_three_contracts() {
    let text = get_rtic_traits_mod();
    assert!(text.starts_with("/// Module defining rtic traits\nmod rtic_traits {"));
    assert!(text.contains("pub trait RticTask {"));
    assert!(text.contains("pub trait RticIdleTask {"));
    assert!(text.contains("pub trait RticMutex {"));
    assert!(text.contains("fn lock(&mut self, f: impl FnOnce(&mut Self::ResourceType));"));
    assert!(text.ends_with("}\n"));
}

#[test]
fn standard_pass_emits_scheduler_fragments() {
    // Two tasks sharing x: ceiling(x) = 5; the interrupt set carries both
    // bindings with their priorities.
    let subs = vec![sub_app(
        0,
        Some(task("Idle", None, 0, &[], 0)),
        vec![
            task("A", Some("EXTI0"), 2, &["x"], 0),
            task("B", Some("EXTI1"), 5, &["x"], 0),
        ],
        Some(resources("Shared", &[("x", "u32", 0)], 0)),
    )];
    let out = Pipeline::new(Backend::Hippo)
        .run(app_args("pac", 1), subs)
        .expect("pipeline succeeds");

    assert!(matches!(out.fragments[0].item, Fragment::TraitsModule));
    assert!(matches!(out.fragments[1].item, Fragment::EntryPoint { core: 0 }));

    let inits: Vec<(String, u16)> = out
        .fragments
        .iter()
        .filter_map(|f| match &f.item {
            Fragment::InterruptInit { irq, priority, .. } => Some((irq.clone(), *priority)),
            _ => None,
        })
        .collect();
    assert_eq!(inits, vec![("EXTI0".to_string(), 2), ("EXTI1".to_string(), 5)]);

    let proxies: Vec<(String, u16)> = out
        .fragments
        .iter()
        .filter_map(|f| match &f.item {
            Fragment::ResourceProxy { resource, ceiling, .. } => Some((resource.clone(), *ceiling)),
            _ => None,
        })
        .collect();
    assert_eq!(proxies, vec![("x".to_string(), 5)]);

    let dispatches: Vec<(String, String, u16)> = out
        .fragments
        .iter()
        .filter_map(|f| match &f.item {
            Fragment::DispatchWrapper { task, irq, priority, .. } => {
                Some((task.clone(), irq.clone(), *priority))
            },
            _ => None,
        })
        .collect();
    assert_eq!(
        dispatches,
        vec![
            ("A".to_string(), "EXTI0".to_string(), 2),
            ("B".to_string(), "EXTI1".to_string(), 5),
        ]
    );

    assert!(out.fragments.iter().any(|f| matches!(f.item, Fragment::IdleLoop { core: 0 })));
    assert!(out.fragments.iter().all(|f| f.stage == PassKind::Std));
}

#[test]
fn pre_pass_tasks_are_seen_by_the_standard_pass() {
    // A software-dispatch pass synthesizes a task bound to a fresh interrupt;
    // the standard pass programs that interrupt like any hardware task's.
    let subs = vec![sub_app(0, None, vec![task("A", Some("EXTI0"), 2, &[], 0)], None)];
    let mut pipeline = Pipeline::new(Backend::Hippo);
    pipeline.bind_pre_std_pass(PrePass {
        core: 0,
        tasks: vec![task("SwDispatcher", Some("EXTI2"), 1, &[], 0)],
        needs_cross_pend: false,
    });
    let out = pipeline.run(app_args("pac", 1), subs).expect("pipeline succeeds");

    let inits: Vec<(String, u16)> = out
        .fragments
        .iter()
        .filter_map(|f| match &f.item {
            Fragment::InterruptInit { irq, priority, .. } => Some((irq.clone(), *priority)),
            _ => None,
        })
        .collect();
    assert_eq!(inits, vec![("EXTI0".to_string(), 2), ("EXTI2".to_string(), 1)]);
    assert!(out
        .fragments
        .iter()
        .any(|f| matches!(&f.item, Fragment::DispatchWrapper { task, .. } if task.as_str() == "SwDispatcher")));
}

#[test]
fn pre_passes_append_in_binding_order() {
    let subs = vec![sub_app(0, None, vec![task("A", Some("EXTI0"), 2, &[], 0)], None)];
    let mut pipeline = Pipeline::new(Backend::Hippo);
    pipeline.bind_pre_std_pass(PrePass {
        core: 0,
        tasks: vec![task("First", Some("EXTI1"), 1, &[], 0)],
        needs_cross_pend: false,
    });
    pipeline.bind_pre_std_pass(PrePass {
        core: 0,
        tasks: vec![task("Second", Some("EXTI2"), 1, &[], 0)],
        needs_cross_pend: false,
    });
    let out = pipeline.run(app_args("pac", 1), subs).expect("pipeline succeeds");
    let dispatched: Vec<String> = out
        .fragments
        .iter()
        .filter_map(|f| match &f.item {
            Fragment::DispatchWrapper { task, .. } => Some(task.clone()),
            _ => None,
        })
        .collect();
    assert_eq!(
        dispatched,
        vec!["A".to_string(), "First".to_string(), "Second".to_string()]
    );
}

#[test]
fn post_pass_output_comes_last() {
    let subs = vec![sub_app(0, None, vec![task("A", Some("EXTI0"), 2, &[], 0)], None)];
    let mut pipeline = Pipeline::new(Backend::Hippo);
    pipeline.bind_post_std_pass(PostPass {
        fragments: vec![Fragment::Extra { text: "appended".to_string() }],
    });
    let out = pipeline.run(app_args("pac", 1), subs).expect("pipeline succeeds");

    let last = out.fragments.last().expect("nonempty output");
    assert_eq!(last.stage, PassKind::Post);
    assert!(matches!(&last.item, Fragment::Extra { text } if text.as_str() == "appended"));
    // stages never decrease along the output
    let ranks: Vec<u8> = out
        .fragments
        .iter()
        .map(|f| match f.stage {
            PassKind::PreStd => 0,
            PassKind::Std => 1,
            PassKind::Post => 2,
        })
        .collect();
    assert!(ranks.windows(2).all(|w| w[0] <= w[1]));
}

#[test]
fn cross_core_pend_without_capability_is_rejected() {
    let subs = vec![sub_app(0, None, vec![], None)];
    let mut pipeline = Pipeline::new(Backend::Hippo);
    pipeline.bind_pre_std_pass(PrePass { core: 0, tasks: vec![], needs_cross_pend: true });
    let err = pipeline.run(app_args("pac", 1), subs).unwrap_err();
    assert_eq!(err.kind, ErrorKind::MissingRequiredConfig);
    assert_eq!(err.detail, "cross_core_pend");
}

#[test]
fn pre_pass_targeting_missing_core_is_rejected() {
    let subs = vec![sub_app(0, None, vec![], None)];
    let mut pipeline = Pipeline::new(Backend::Hippo);
    pipeline.bind_pre_std_pass(PrePass { core: 3, tasks: vec![], needs_cross_pend: false });
    let err = pipeline.run(app_args("pac", 1), subs).unwrap_err();
    assert_eq!(err.kind, ErrorKind::InvalidCoreAssignment);
}

#[test]
fn pipeline_rechecks_references_after_pre_passes() {
    // The pre pass synthesizes a task referencing a resource nobody declared:
    // the analysis, re-validating after the passes, rejects it.
    let subs = vec![sub_app(
        0,
        None,
        vec![task("A", Some("EXTI0"), 2, &[], 0)],
        Some(resources("Shared", &[("y", "u32", 0)], 0)),
    )];
    let mut pipeline = Pipeline::new(Backend::Hippo);
    pipeline.bind_pre_std_pass(PrePass {
        core: 0,
        tasks: vec![task("Sw", Some("EXTI2"), 1, &["ghostly"], 0)],
        needs_cross_pend: false,
    });
    let err = pipeline.run(app_args("pac", 1), subs).unwrap_err();
    assert_eq!(err.kind, ErrorKind::ResourceNotFound);
    assert_eq!(err.site, "Sw");
    assert_eq!(err.detail, "ghostly");
}

#[test]
fn interrupt_priorities_are_clamped_to_the_floor() {
    // With the floor at 0 nothing changes; the clamp shows once a priority
    // sits below it. The reference backend's floor is 0, so every priority
    // already satisfies it.
    let subs = vec![sub_app(0, None, vec![task("A", Some("EXTI0"), 0, &[], 0)], None)];
    let out = Pipeline::new(Backend::Hippo)
        .run(app_args("pac", 1), subs)
        .expect("pipeline succeeds");
    let floor = Backend::Hippo.default_task_priority();
    for f in &out.fragments {
        if let Fragment::InterruptInit { priority, .. } = &f.item {
            assert!(*priority >= floor);
        }
    }
}

#[test]
fn two_cores_generate_two_entries() {
    let subs = vec![
        sub_app(0, None, vec![task("A", Some("EXTI0"), 2, &[], 0)], None),
        sub_app(1, None, vec![task("B", Some("EXTI1"), 3, &[], 1)], None),
    ];
    let out = Pipeline::new(Backend::Hippo)
        .run(app_args("pac", 2), subs)
        .expect("pipeline succeeds");
    let entries: Vec<u32> = out
        .fragments
        .iter()
        .filter_map(|f| match f.item {
            Fragment::EntryPoint { core } => Some(core),
            _ => None,
        })
        .collect();
    assert_eq!(entries, vec![0, 1]);
}
