use rtic_core::analysis::{update_resource_priorities, Analysis, SubAnalysis};
use rtic_core::ast::{
    App, AppArgs, HardwareTask, InitTask, InitTaskArgs, RticTask, SharedElement, SharedResources,
    SharedResourcesArgs, SubApp, TaskArgs,
};
use rtic_core::builder::build;
use rtic_core::error::ErrorKind;

fn task(name: &str, irq: Option<&str>, priority: u16, shared: &[&str], core: u32) -> RticTask {
    RticTask {
        args: TaskArgs {
            interrupt_handler_name: irq.map(|s| s.to_string()),
            priority,
            shared_idents: shared.iter().map(|s| s.to_string()).collect(),
            core,
        },
        ident: name.to_string(),
    }
}

fn resources(name: &str, elems: &[(&str, &str, u16)], core: u32) -> SharedResources {
    SharedResources {
        args: SharedResourcesArgs { core },
        ident: name.to_string(),
        resources: elems
            .iter()
            .map(|(id, ty, p)| SharedElement { ident: id.to_string(), ty: ty.to_string(), priority: *p })
            .collect(),
    }
}

fn sub_app(
    core: u32,
    idle: Option<RticTask>,
    tasks: Vec<RticTask>,
    shared: Option<SharedResources>,
) -> SubApp {
    SubApp {
        core,
        init: InitTask { args: InitTaskArgs { core }, ident: format!("init{core}") },
        idle,
        tasks,
        shared,
    }
}

fn app_args(device: &str, cores: u32) -> AppArgs {
    AppArgs { device: device.to_string(), peripherals: false, cores }
}

#[test]
fn task_args_defaults_resolve() {
    let args = TaskArgs::parse(None, None, None, None, 3);
    assert!(args.interrupt_handler_name.is_none());
    assert_eq!(args.priority, 3);
    assert!(args.shared_idents.is_empty());
    assert_eq!(args.core, 0);
}

#[test]
fn task_args_explicit_values_kept() {
    let args = TaskArgs::parse(
        Some("EXTI0".to_string()),
        Some(7),
        Some(vec!["x".to_string(), "y".to_string()]),
        Some(1),
        0,
    );
    assert_eq!(args.interrupt_handler_name.as_deref(), Some("EXTI0"));
    assert_eq!(args.priority, 7);
    assert_eq!(args.shared_idents, vec!["x".to_string(), "y".to_string()]);
    assert_eq!(args.core, 1);
}

#[test]
fn idle_without_priority_resolves_to_floor() {
    // An idle task declared with no explicit priority on a system whose floor
    // is 0: resolved priority 0 and no interrupt binding.
    let args = TaskArgs::parse(None, None, None, None, 0);
    assert_eq!(args.priority, 0);
    assert!(args.interrupt_handler_name.is_none());
}

#[test]
fn init_and_shared_args_default_core() {
    assert_eq!(InitTaskArgs::parse(None).core, 0);
    assert_eq!(InitTaskArgs::parse(Some(2)).core, 2);
    assert_eq!(SharedResourcesArgs::parse(None).core, 0);
    assert_eq!(SharedResourcesArgs::parse(Some(1)).core, 1);
}

#[test]
fn app_args_require_device() {
    let err = AppArgs::parse(None, Some(true), Some(2)).unwrap_err();
    assert_eq!(err.kind, ErrorKind::MissingRequiredConfig);

    let ok = AppArgs::parse(Some("pac".to_string()), None, None).unwrap();
    assert_eq!(ok.device, "pac");
    assert!(!ok.peripherals);
    assert_eq!(ok.cores, 1);
}

#[test]
fn name_casings() {
    let t = task("MyTask", Some("EXTI1"), 1, &[], 0);
    assert_eq!(t.name().as_str(), "MyTask");
    assert_eq!(t.name_snakecase(), "my_task");
    assert_eq!(t.name_uppercase(), "MY_TASK");
    let sh = resources("SharedThings", &[], 0);
    assert_eq!(sh.name_uppercase(), "SHARED_THINGS");
}

#[test]
fn get_field_finds_declared_resource() {
    let sh = resources("Shared", &[("a", "u32", 0), ("b", "bool", 0)], 0);
    let got = sh.get_field(&"b".to_string()).expect("declared resource");
    assert_eq!(got.ident, "b");
    assert_eq!(got.ty, "bool");
    assert!(sh.get_field(&"missing".to_string()).is_none());
}

#[test]
fn get_field_mut_returns_position() {
    let mut sh = resources("Shared", &[("a", "u32", 0), ("b", "bool", 0)], 0);
    assert_eq!(sh.get_field_mut(&"a".to_string()), Some(0));
    assert_eq!(sh.get_field_mut(&"b".to_string()), Some(1));
    assert_eq!(sh.get_field_mut(&"c".to_string()), None);
}

#[test]
fn ceiling_is_max_of_accessor_priorities() {
    // Two hardware tasks A (priority 2) and B (priority 5), both accessing X:
    // ceiling(X) = 5.
    let tasks = vec![
        task("A", Some("EXTI0"), 2, &["x"], 0),
        task("B", Some("EXTI1"), 5, &["x"], 0),
    ];
    let mut shared = Some(resources("Shared", &[("x", "u32", 0)], 0));
    update_resource_priorities(&mut shared, &tasks).expect("analysis succeeds");
    assert_eq!(shared.as_ref().unwrap().resources[0].priority, 5);
}

#[test]
fn ceiling_analysis_is_idempotent() {
    let tasks = vec![
        task("A", Some("EXTI0"), 2, &["x", "y"], 0),
        task("B", Some("EXTI1"), 5, &["x"], 0),
    ];
    let mut shared = Some(resources("Shared", &[("x", "u32", 0), ("y", "u32", 1)], 0));
    update_resource_priorities(&mut shared, &tasks).expect("first run");
    let after_first: Vec<u16> =
        shared.as_ref().unwrap().resources.iter().map(|e| e.priority).collect();
    update_resource_priorities(&mut shared, &tasks).expect("second run");
    let after_second: Vec<u16> =
        shared.as_ref().unwrap().resources.iter().map(|e| e.priority).collect();
    assert_eq!(after_first, vec![5, 2]);
    assert_eq!(after_first, after_second);
}

#[test]
fn ceiling_is_order_independent() {
    // max aggregation: traversal order does not change the result
    let forward = vec![
        task("A", Some("EXTI0"), 2, &["x"], 0),
        task("B", Some("EXTI1"), 5, &["x"], 0),
        task("C", Some("EXTI2"), 3, &["x"], 0),
    ];
    let backward = vec![
        task("C", Some("EXTI2"), 3, &["x"], 0),
        task("B", Some("EXTI1"), 5, &["x"], 0),
        task("A", Some("EXTI0"), 2, &["x"], 0),
    ];
    let mut first = Some(resources("Shared", &[("x", "u32", 0)], 0));
    let mut second = Some(resources("Shared", &[("x", "u32", 0)], 0));
    update_resource_priorities(&mut first, &forward).expect("forward run");
    update_resource_priorities(&mut second, &backward).expect("backward run");
    assert_eq!(
        first.as_ref().unwrap().resources[0].priority,
        second.as_ref().unwrap().resources[0].priority
    );
}

#[test]
fn ceiling_never_drops_below_declared_floor() {
    let tasks = vec![task("A", Some("EXTI0"), 1, &["x"], 0)];
    let mut shared = Some(resources("Shared", &[("x", "u32", 4)], 0));
    update_resource_priorities(&mut shared, &tasks).expect("analysis succeeds");
    assert_eq!(shared.as_ref().unwrap().resources[0].priority, 4);
}

#[test]
fn analysis_rejects_unknown_resource() {
    // A task declares shared: [x] but the declaration only has y.
    let tasks = vec![task("A", Some("EXTI0"), 2, &["x"], 0)];
    let mut shared = Some(resources("Shared", &[("y", "u32", 0)], 0));
    let err = update_resource_priorities(&mut shared, &tasks).unwrap_err();
    assert_eq!(err.kind, ErrorKind::ResourceNotFound);
    assert_eq!(err.site, "A");
    assert_eq!(err.detail, "x");
    // the declaration is left untouched
    assert_eq!(shared.as_ref().unwrap().resources[0].priority, 0);
}

#[test]
fn analysis_without_declaration_is_a_no_op() {
    let tasks = vec![task("A", Some("EXTI0"), 2, &[], 0)];
    let mut shared: Option<SharedResources> = None;
    update_resource_priorities(&mut shared, &tasks).expect("nothing to do");
    assert!(shared.is_none());
}

#[test]
fn sub_analysis_collects_bound_interrupts() {
    // Interrupt set of A (priority 2) and B (priority 5), idle contributes none.
    let sub = sub_app(
        0,
        None,
        vec![
            task("A", Some("EXTI0"), 2, &[], 0),
            task("NoIrq", None, 1, &[], 0),
            task("B", Some("EXTI1"), 5, &[], 0),
        ],
        None,
    );
    let analysis = SubAnalysis::run(&sub).expect("analysis succeeds");
    assert_eq!(
        analysis.used_irqs,
        vec![("EXTI0".to_string(), 2), ("EXTI1".to_string(), 5)]
    );
}

#[test]
fn whole_app_analysis_is_per_core() {
    let app = App {
        args: app_args("pac", 2),
        sub_apps: vec![
            sub_app(0, None, vec![task("A", Some("EXTI0"), 2, &[], 0)], None),
            sub_app(1, None, vec![task("B", Some("EXTI1"), 3, &[], 1)], None),
        ],
    };
    let analysis = Analysis::run(&app).expect("analysis succeeds");
    assert_eq!(analysis.sub_analysis.len(), 2);
    assert_eq!(analysis.sub_analysis[0].used_irqs, vec![("EXTI0".to_string(), 2)]);
    assert_eq!(analysis.sub_analysis[1].used_irqs, vec![("EXTI1".to_string(), 3)]);
}

#[test]
fn build_accepts_well_formed_declarations() {
    let subs = vec![sub_app(
        0,
        Some(task("Idle", None, 0, &[], 0)),
        vec![task("A", Some("EXTI0"), 2, &["x"], 0)],
        Some(resources("Shared", &[("x", "u32", 0)], 0)),
    )];
    let app = build(app_args("pac", 1), subs, 0).expect("buildable");
    assert_eq!(app.sub_apps.len(), 1);
    let idle = app.sub_apps[0].idle.as_ref().unwrap();
    assert_eq!(idle.args.priority, 0);
    assert!(idle.args.interrupt_handler_name.is_none());
}

#[test]
fn build_normalizes_idle_to_floor() {
    // Even an idle task declared with a priority and a binding resolves to
    // the floor with no interrupt.
    let subs = vec![sub_app(0, Some(task("Idle", Some("EXTI7"), 9, &[], 0)), vec![], None)];
    let app = build(app_args("pac", 1), subs, 0).expect("buildable");
    let idle = app.sub_apps[0].idle.as_ref().unwrap();
    assert_eq!(idle.args.priority, 0);
    assert!(idle.args.interrupt_handler_name.is_none());
}

#[test]
fn build_rejects_unresolved_resource() {
    // shared: [x] against a declaration holding only y.
    let subs = vec![sub_app(
        0,
        None,
        vec![task("A", Some("EXTI0"), 2, &["x"], 0)],
        Some(resources("Shared", &[("y", "u32", 0)], 0)),
    )];
    let err = build(app_args("pac", 1), subs, 0).unwrap_err();
    assert_eq!(err.kind, ErrorKind::UnresolvedResource);
    assert_eq!(err.site, "A");
    assert_eq!(err.detail, "x");
}

#[test]
fn build_rejects_duplicate_interrupt_binding() {
    let subs = vec![sub_app(
        0,
        None,
        vec![
            task("A", Some("EXTI0"), 2, &[], 0),
            task("B", Some("EXTI0"), 5, &[], 0),
        ],
        None,
    )];
    let err = build(app_args("pac", 1), subs, 0).unwrap_err();
    assert_eq!(err.kind, ErrorKind::DuplicateInterruptBinding);
    assert_eq!(err.site, "B");
    assert_eq!(err.detail, "EXTI0");
}

#[test]
fn build_rejects_core_mismatch() {
    // a task assigned to core 1 inside the sub-application of core 0
    let subs = vec![sub_app(0, None, vec![task("A", Some("EXTI0"), 2, &[], 1)], None)];
    let err = build(app_args("pac", 1), subs, 0).unwrap_err();
    assert_eq!(err.kind, ErrorKind::InvalidCoreAssignment);
}

#[test]
fn build_rejects_core_count_mismatch() {
    let subs = vec![sub_app(0, None, vec![], None)];
    let err = build(app_args("pac", 2), subs, 0).unwrap_err();
    assert_eq!(err.kind, ErrorKind::InvalidCoreAssignment);
}
