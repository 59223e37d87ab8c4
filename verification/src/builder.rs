use crate::analysis::all_resolved;
use crate::ast::{has_resource, App, AppArgs, RticTask, SharedResources, SubApp, TaskArgs};
use crate::error::{Diagnostic, ErrorKind};
use vstd::prelude::*;

verus! {

// ---------------------------------------------------------------------------
// Well-formedness of the application graph
// ---------------------------------------------------------------------------

/// True when every resource identifier declared by task `t` names a resource
/// of `shared`; a task of a sub-application without a shared-resources
/// declaration must declare no resource at all.
pub open spec fn task_resolved(shared: Option<SharedResources>, t: RticTask) -> bool {
    match shared {
        Option::Some(sh) => forall|k: int|
            0 <= k < t.args.shared_idents@.len() ==> has_resource(
                sh.resources@,
                (#[trigger] t.args.shared_idents@[k])@,
            ),
        Option::None => t.args.shared_idents@.len() == 0,
    }
}

/// True when every task of the sub-application, the idle task included,
/// references only declared resources.
pub open spec fn sub_resolved(sub: SubApp) -> bool {
    &&& forall|i: int|
        0 <= i < sub.tasks@.len() ==> task_resolved(sub.shared, #[trigger] sub.tasks@[i])
    &&& match sub.idle {
        Option::Some(t) => task_resolved(sub.shared, t),
        Option::None => true,
    }
}

/// True when the two tasks bind the same interrupt.
pub open spec fn binds_conflict(a: RticTask, b: RticTask) -> bool {
    a.args.interrupt_handler_name matches Option::Some(x)
        && b.args.interrupt_handler_name matches Option::Some(y) && x@ == y@
}

/// True when no two distinct tasks bind the same interrupt.
pub open spec fn bindings_distinct(tasks: Seq<RticTask>) -> bool {
    forall|i: int, j: int|
        0 <= i < j < tasks.len() ==> !(#[trigger] binds_conflict(tasks[i], tasks[j]))
}

/// True when every task and declaration of the sub-application is assigned to
/// the sub-application's own core.
pub open spec fn cores_ok(sub: SubApp) -> bool {
    &&& sub.init.args.core == sub.core
    &&& match sub.idle {
        Option::Some(t) => t.args.core == sub.core,
        Option::None => true,
    }
    &&& forall|i: int| 0 <= i < sub.tasks@.len() ==> (#[trigger] sub.tasks@[i]).args.core
        == sub.core
    &&& match sub.shared {
        Option::Some(sh) => sh.args.core == sub.core,
        Option::None => true,
    }
}

/// True when the idle task, if present, binds no interrupt and runs at the
/// priority floor.
pub open spec fn idle_ok(sub: SubApp, floor: u16) -> bool {
    match sub.idle {
        Option::Some(t) => t.args.interrupt_handler_name is None && t.args.priority == floor,
        Option::None => true,
    }
}

/// Well-formedness of one sub-application.
pub open spec fn sub_wf(sub: SubApp, floor: u16) -> bool {
    &&& cores_ok(sub)
    &&& bindings_distinct(sub.tasks@)
    &&& sub_resolved(sub)
    &&& idle_ok(sub, floor)
}

/// Well-formedness of a whole application: one sub-application per configured
/// core, in core order, each well formed.
pub open spec fn app_wf(app: App, floor: u16) -> bool {
    &&& app.sub_apps@.len() == app.args.cores
    &&& forall|c: int|
        0 <= c < app.sub_apps@.len() ==> (#[trigger] app.sub_apps@[c]).core == c && sub_wf(
            app.sub_apps@[c],
            floor,
        )
}

/// Binding uniqueness: in a well-formed application, two distinct hardware
/// tasks on the same core never bind the same interrupt.
pub proof fn lemma_binding_uniqueness(app: App, floor: u16, c: int, i: int, j: int)
    requires
        app_wf(app, floor),
        0 <= c < app.sub_apps@.len(),
        0 <= i < j < app.sub_apps@[c].tasks@.len(),
    ensures
        !binds_conflict(app.sub_apps@[c].tasks@[i], app.sub_apps@[c].tasks@[j]),
{
    assert(sub_wf(app.sub_apps@[c], floor));
}

/// A well-formed sub-application passes the resolution check of the ceiling
/// analysis: every hardware-task reference resolves against its
/// shared-resources declaration.
pub proof fn lemma_sub_resolved_all_resolved(sub: SubApp)
    requires
        sub_resolved(sub),
    ensures
        match sub.shared {
            Option::Some(sh) => all_resolved(sh.resources@, sub.tasks@),
            Option::None => true,
        },
{
    match sub.shared {
        Option::Some(sh) => {
            assert forall|i: int, k: int|
                0 <= i < sub.tasks@.len() && 0 <= k
                    < sub.tasks@[i].args.shared_idents@.len() implies #[trigger] has_resource(
                sh.resources@,
                sub.tasks@[i].args.shared_idents@[k]@,
            ) by {
                assert(task_resolved(sub.shared, sub.tasks@[i]));
            }
        },
        Option::None => {},
    }
}

// ---------------------------------------------------------------------------
// Idle normalization
// ---------------------------------------------------------------------------

/// The idle task as the builder resolves it: no interrupt binding and the
/// priority floor, everything else as declared.
pub open spec fn normalize_idle_task(t: RticTask, floor: u16) -> RticTask {
    RticTask {
        args: TaskArgs {
            interrupt_handler_name: Option::None,
            priority: floor,
            shared_idents: t.args.shared_idents,
            core: t.args.core,
        },
        ident: t.ident,
    }
}

/// A sub-application with its idle task resolved to the floor.
pub open spec fn normalize_sub(sub: SubApp, floor: u16) -> SubApp {
    SubApp {
        core: sub.core,
        init: sub.init,
        idle: match sub.idle {
            Option::Some(t) => Option::Some(normalize_idle_task(t, floor)),
            Option::None => Option::None,
        },
        tasks: sub.tasks,
        shared: sub.shared,
    }
}

/// True when the raw declarations can be built into a well-formed application
/// once the idle task is resolved: the sub-application count matches the
/// configured core count, sub-applications come in core order, every core
/// assignment agrees, interrupt bindings are pairwise distinct, and every
/// resource reference resolves.
pub open spec fn buildable(args: AppArgs, subs: Seq<SubApp>) -> bool {
    &&& subs.len() == args.cores
    &&& forall|c: int|
        0 <= c < subs.len() ==> (#[trigger] subs[c]).core == c && cores_ok(subs[c])
            && bindings_distinct(subs[c].tasks@) && sub_resolved(subs[c])
}

// ---------------------------------------------------------------------------
// Exec checks
// ---------------------------------------------------------------------------

/// Whether every core assignment inside `sub` agrees with `sub.core`.
fn cores_check(sub: &SubApp) -> (b: bool)
    ensures
        b == cores_ok(*sub),
{
    if sub.init.args.core != sub.core {
        return false;
    }
    match &sub.idle {
        Option::Some(t) => {
            if t.args.core != sub.core {
                return false;
            }
        },
        Option::None => {},
    }
    match &sub.shared {
        Option::Some(sh) => {
            if sh.args.core != sub.core {
                return false;
            }
        },
        Option::None => {},
    }
    let n = sub.tasks.len();
    let mut i: usize = 0;
    while i < n
        invariant
            n == sub.tasks@.len(),
            0 <= i <= n,
            sub.init.args.core == sub.core,
            forall|i2: int| 0 <= i2 < i ==> (#[trigger] sub.tasks@[i2]).args.core == sub.core,
        decreases n - i,
    {
        if sub.tasks[i].args.core != sub.core {
            return false;
        }
        i += 1;
    }
    true
}

/// The first resource identifier of `t` that does not resolve against
/// `shared`, or `None` when all of them do.
fn first_unresolved(shared: &Option<SharedResources>, t: &RticTask) -> (r: Option<String>)
    ensures
        r is None <==> task_resolved(*shared, *t),
        r matches Option::Some(id) ==> exists|k: int|
            0 <= k < t.args.shared_idents@.len() && id == t.args.shared_idents@[k] && (match *shared {
                Option::Some(sh) => !has_resource(sh.resources@, t.args.shared_idents@[k]@),
                Option::None => true,
            }),
{
    match shared {
        Option::None => {
            if t.args.shared_idents.len() == 0 {
                Option::None
            } else {
                Option::Some(t.args.shared_idents[0].clone())
            }
        },
        Option::Some(sh) => {
            let m = t.args.shared_idents.len();
            let mut k: usize = 0;
            while k < m
                invariant
                    *shared == Option::Some(*sh),
                    m == t.args.shared_idents@.len(),
                    0 <= k <= m,
                    forall|k2: int|
                        0 <= k2 < k ==> #[trigger] has_resource(
                            sh.resources@,
                            t.args.shared_idents@[k2]@,
                        ),
                decreases m - k,
            {
                if sh.get_field(&t.args.shared_idents[k]).is_none() {
                    proof {
                        assert(!has_resource(sh.resources@, t.args.shared_idents@[k as int]@));
                        assert(!task_resolved(Option::Some(*sh), *t)) by {
                            if task_resolved(Option::Some(*sh), *t) {
                                assert(has_resource(
                                    sh.resources@,
                                    t.args.shared_idents@[k as int]@,
                                ));
                            }
                        }
                        assert(!task_resolved(*shared, *t));
                    }
                    return Option::Some(t.args.shared_idents[k].clone());
                }
                k += 1;
            }
            Option::None
        },
    }
}

/// The first pair of tasks binding the same interrupt, reported as the name of
/// the later task and the shared interrupt; `None` when bindings are pairwise
/// distinct.
fn first_duplicate_binding(tasks: &Vec<RticTask>) -> (r: Option<(String, String)>)
    ensures
        r is None <==> bindings_distinct(tasks@),
        r matches Option::Some(p) ==> exists|i: int, j: int|
            0 <= i < j < tasks@.len() && binds_conflict(tasks@[i], tasks@[j]) && p.0
                == tasks@[j].ident && (tasks@[j].args.interrupt_handler_name matches Option::Some(
                irq,
            ) && p.1 == irq),
{
    let n = tasks.len();
    if n == 0 {
        return Option::None;
    }
    let mut j: usize = 1;
    while j < n
        invariant
            n == tasks@.len(),
            1 <= j <= n,
            forall|a: int, b: int|
                0 <= a < b < j ==> !(#[trigger] binds_conflict(tasks@[a], tasks@[b])),
        decreases n - j,
    {
        let mut i: usize = 0;
        while i < j
            invariant
                n == tasks@.len(),
                0 <= i <= j < n,
                forall|a: int, b: int|
                    0 <= a < b < j ==> !(#[trigger] binds_conflict(tasks@[a], tasks@[b])),
                forall|a: int|
                    0 <= a < i ==> !(#[trigger] binds_conflict(tasks@[a], tasks@[j as int])),
            decreases j - i,
        {
            let conflict: bool = match (
                &tasks[i].args.interrupt_handler_name,
                &tasks[j].args.interrupt_handler_name,
            ) {
                (Option::Some(x), Option::Some(y)) => x.eq(y),
                _ => false,
            };
            if conflict {
                proof {
                    assert(binds_conflict(tasks@[i as int], tasks@[j as int]));
                    assert(!bindings_distinct(tasks@));
                }
                let irq = match &tasks[j].args.interrupt_handler_name {
                    Option::Some(y) => y.clone(),
                    Option::None => String::new(),
                };
                return Option::Some((tasks[j].ident.clone(), irq));
            }
            i += 1;
        }
        j += 1;
    }
    Option::None
}

// ---------------------------------------------------------------------------
// The builder
// ---------------------------------------------------------------------------

/// Loop bookkeeping of `build`: the first `c` sub-applications of the raw
/// declarations have been checked and normalized into `out`, the rest still
/// wait in `remaining`.
spec fn build_progress(
    orig: Seq<SubApp>,
    out: Seq<SubApp>,
    remaining: Seq<SubApp>,
    c: int,
    floor: u16,
) -> bool {
    &&& out.len() == c
    &&& remaining =~= orig.skip(c)
    &&& forall|c2: int|
        0 <= c2 < c ==> out[c2] == normalize_sub(#[trigger] orig[c2], floor) && orig[c2].core == c2
            && cores_ok(orig[c2]) && bindings_distinct(orig[c2].tasks@) && sub_resolved(orig[c2])
}

/// Build the application graph from the resolved declarations, or fail with a
/// diagnostic.
///
/// The checks run in core order and stop at the first failure: the
/// sub-application count must equal the configured core count and every core
/// assignment must agree (`InvalidCoreAssignment`); no two tasks of one core
/// may bind the same interrupt (`DuplicateInterruptBinding`); every resource
/// reference, the idle task's included, must resolve (`UnresolvedResource`).
/// On success the idle task of every core is resolved to bind no interrupt and
/// to run at `default_priority`, the floor.
pub fn build(args: AppArgs, sub_apps: Vec<SubApp>, default_priority: u16) -> (r: Result<
    App,
    Diagnostic,
>)
    ensures
        r is Ok <==> buildable(args, sub_apps@),
        r matches Result::Ok(a) ==> {
            &&& a.args == args
            &&& a.sub_apps@.len() == sub_apps@.len()
            &&& forall|c: int|
                0 <= c < sub_apps@.len() ==> a.sub_apps@[c] == normalize_sub(
                    #[trigger] sub_apps@[c],
                    default_priority,
                )
            &&& app_wf(a, default_priority)
        },
        r matches Result::Err(d) ==> {
            &&& (d.kind == ErrorKind::InvalidCoreAssignment || d.kind
                == ErrorKind::DuplicateInterruptBinding || d.kind == ErrorKind::UnresolvedResource)
            &&& d.kind == ErrorKind::InvalidCoreAssignment ==> (sub_apps@.len() != args.cores
                || exists|c: int|
                0 <= c < sub_apps@.len() && !((#[trigger] sub_apps@[c]).core == c && cores_ok(
                    sub_apps@[c],
                )))
            &&& d.kind == ErrorKind::DuplicateInterruptBinding ==> exists|c: int|
                0 <= c < sub_apps@.len() && !bindings_distinct((#[trigger] sub_apps@[c]).tasks@)
            &&& d.kind == ErrorKind::UnresolvedResource ==> exists|c: int|
                0 <= c < sub_apps@.len() && !sub_resolved(#[trigger] sub_apps@[c])
        },
{
    let ghost orig = sub_apps@;
    if sub_apps.len() != args.cores as usize {
        return Result::Err(
            Diagnostic::new(
                ErrorKind::InvalidCoreAssignment,
                String::new(),
                crate::ast::string_from("cores"),
            ),
        );
    }
    let n = sub_apps.len();
    let mut remaining = sub_apps;
    let mut out: Vec<SubApp> = Vec::new();
    let mut c: usize = 0;
    while c < n
        invariant
            orig == sub_apps@,
            n == orig.len(),
            n == args.cores,
            0 <= c <= n,
            remaining@.len() == n - c,
            build_progress(orig, out@, remaining@, c as int, default_priority),
        decreases n - c,
    {
        let mut sub = remaining.remove(0);
        proof {
            assert(sub == orig[c as int]);
            assert(remaining@ =~= orig.skip(c as int + 1));
        }
        if sub.core as usize != c || !cores_check(&sub) {
            proof {
                assert(buildable(args, orig) ==> (#[trigger] orig[c as int]).core == c as int
                    && cores_ok(orig[c as int]));
            }
            return Result::Err(
                Diagnostic::new(
                    ErrorKind::InvalidCoreAssignment,
                    sub.init.ident.clone(),
                    crate::ast::string_from("core"),
                ),
            );
        }
        match first_duplicate_binding(&sub.tasks) {
            Option::Some(p) => {
                proof {
                    assert(0 <= c < orig.len() && !bindings_distinct(
                        (#[trigger] orig[c as int]).tasks@,
                    ));
                }
                return Result::Err(Diagnostic::new(ErrorKind::DuplicateInterruptBinding, p.0, p.1));
            },
            Option::None => {},
        }
        let ntasks = sub.tasks.len();
        let mut i: usize = 0;
        while i < ntasks
            invariant
                orig == sub_apps@,
                ntasks == sub.tasks@.len(),
                0 <= i <= ntasks,
                sub == orig[c as int],
                0 <= c < orig.len(),
                forall|i2: int| 0 <= i2 < i ==> task_resolved(sub.shared, #[trigger] sub.tasks@[i2]),
            decreases ntasks - i,
        {
            match first_unresolved(&sub.shared, &sub.tasks[i]) {
                Option::Some(id) => {
                    proof {
                        assert(!task_resolved(sub.shared, sub.tasks@[i as int]));
                        assert(!sub_resolved(#[trigger] orig[c as int]));
                    }
                    return Result::Err(
                        Diagnostic::new(ErrorKind::UnresolvedResource, sub.tasks[i].ident.clone(), id),
                    );
                },
                Option::None => {},
            }
            i += 1;
        }
        match &sub.idle {
            Option::Some(t) => {
                match first_unresolved(&sub.shared, t) {
                    Option::Some(id) => {
                        proof {
                            assert(!task_resolved(sub.shared, *t));
                            assert(!sub_resolved(#[trigger] orig[c as int]));
                        }
                        return Result::Err(
                            Diagnostic::new(ErrorKind::UnresolvedResource, t.ident.clone(), id),
                        );
                    },
                    Option::None => {},
                }
            },
            Option::None => {},
        }
        sub.idle = match sub.idle {
            Option::Some(t) => Option::Some(
                RticTask {
                    args: TaskArgs {
                        interrupt_handler_name: Option::None,
                        priority: default_priority,
                        shared_idents: t.args.shared_idents,
                        core: t.args.core,
                    },
                    ident: t.ident,
                },
            ),
            Option::None => Option::None,
        };
        out.push(sub);
        c += 1;
    }
    let result = App { args, sub_apps: out };
    proof {
        assert forall|c2: int| 0 <= c2 < result.sub_apps@.len() implies (
        #[trigger] result.sub_apps@[c2]).core == c2 && sub_wf(
            result.sub_apps@[c2],
            default_priority,
        ) by {
            assert(result.sub_apps@[c2] == normalize_sub(orig[c2], default_priority));
        }
    }
    Result::Ok(result)
}

} // verus!
