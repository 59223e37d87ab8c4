use crate::ast::{has_resource, App, HardwareTask, RticTask, SharedElement, SharedResources, SubApp};
use crate::error::{Diagnostic, ErrorKind};
use vstd::prelude::*;

verus! {

// ---------------------------------------------------------------------------
// Ceiling propagation
//
// A resource's ceiling is the highest priority among the tasks that ever
// access it (and never below the value it starts from). `ceiling_after` is the
// mathematical statement of one propagation run; the lemmas below establish
// that it is exactly that maximum and that a second run changes nothing.
// ---------------------------------------------------------------------------

/// True when task `t` declares access to the resource named `name`.
pub open spec fn task_accesses(t: RticTask, name: Seq<char>) -> bool {
    exists|k: int| 0 <= k < t.args.shared_idents@.len() && t.args.shared_idents@[k]@ == name
}

/// The ceiling of the resource named `name` after propagating the priorities
/// of `tasks` over a starting value of `p0`.
pub open spec fn ceiling_after(p0: u16, name: Seq<char>, tasks: Seq<RticTask>) -> u16
    decreases tasks.len(),
{
    if tasks.len() == 0 {
        p0
    } else {
        let rest = ceiling_after(p0, name, tasks.drop_last());
        let t = tasks.last();
        if task_accesses(t, name) && t.args.priority > rest {
            t.args.priority
        } else {
            rest
        }
    }
}

/// Ceiling monotonicity, upper-bound half: the propagated ceiling is at least
/// the starting value and at least the priority of every task that accesses
/// the resource.
pub proof fn lemma_ceiling_upper_bound(p0: u16, name: Seq<char>, tasks: Seq<RticTask>)
    ensures
        ceiling_after(p0, name, tasks) >= p0,
        forall|i: int|
            0 <= i < tasks.len() && task_accesses(tasks[i], name) ==> ceiling_after(p0, name, tasks)
                >= tasks[i].args.priority,
    decreases tasks.len(),
{
    if tasks.len() > 0 {
        lemma_ceiling_upper_bound(p0, name, tasks.drop_last());
        assert forall|i: int|
            0 <= i < tasks.len() && task_accesses(tasks[i], name) implies ceiling_after(
            p0,
            name,
            tasks,
        ) >= tasks[i].args.priority by {
            if i < tasks.len() - 1 {
                assert(tasks.drop_last()[i] == tasks[i]);
            }
        }
    }
}

/// Ceiling monotonicity, attainment half: the propagated ceiling is the
/// starting value or the priority of some task that accesses the resource —
/// together with the upper bound, the ceiling is exactly
/// max(p0, p1, ..., pn) over the accessing tasks' priorities.
pub proof fn lemma_ceiling_attained(p0: u16, name: Seq<char>, tasks: Seq<RticTask>)
    ensures
        ceiling_after(p0, name, tasks) == p0 || exists|i: int|
            0 <= i < tasks.len() && task_accesses(tasks[i], name) && tasks[i].args.priority
                == ceiling_after(p0, name, tasks),
    decreases tasks.len(),
{
    if tasks.len() > 0 {
        lemma_ceiling_attained(p0, name, tasks.drop_last());
        let c = ceiling_after(p0, name, tasks);
        let rest = ceiling_after(p0, name, tasks.drop_last());
        if c == rest {
            if rest != p0 {
                let i = choose|i: int|
                    0 <= i < tasks.drop_last().len() && task_accesses(tasks.drop_last()[i], name)
                        && tasks.drop_last()[i].args.priority == rest;
                assert(tasks.drop_last()[i] == tasks[i]);
                assert(0 <= i < tasks.len() && task_accesses(tasks[i], name)
                    && tasks[i].args.priority == c);
            }
        } else {
            let j = tasks.len() - 1;
            assert(tasks[j] == tasks.last());
            assert(0 <= j < tasks.len() && task_accesses(tasks[j], name) && tasks[j].args.priority
                == c);
        }
    }
}

/// Ceiling idempotence: running the propagation a second time over the
/// already-propagated value yields the same ceilings.
pub proof fn lemma_ceiling_idempotent(p0: u16, name: Seq<char>, tasks: Seq<RticTask>)
    ensures
        ceiling_after(ceiling_after(p0, name, tasks), name, tasks) == ceiling_after(
            p0,
            name,
            tasks,
        ),
{
    let c = ceiling_after(p0, name, tasks);
    let c2 = ceiling_after(c, name, tasks);
    lemma_ceiling_upper_bound(c, name, tasks);
    lemma_ceiling_attained(c, name, tasks);
    lemma_ceiling_upper_bound(p0, name, tasks);
}

/// Analysis idempotence, whole-declaration form: running the ceiling analysis
/// twice over the same tasks leaves the second result identical to the first.
pub proof fn lemma_update_idempotent(
    o: SharedResources,
    n: SharedResources,
    m: SharedResources,
    tasks: Seq<RticTask>,
)
    requires
        priorities_updated(o, n, tasks),
        priorities_updated(n, m, tasks),
    ensures
        m.args == n.args,
        m.ident == n.ident,
        m.resources@ =~= n.resources@,
{
    assert forall|j: int| 0 <= j < n.resources@.len() implies m.resources@[j]
        == n.resources@[j] by {
        lemma_ceiling_idempotent(o.resources@[j].priority, o.resources@[j].ident@, tasks);
    }
}

// ---------------------------------------------------------------------------
// Orphan references
// ---------------------------------------------------------------------------

/// True when every resource identifier declared by any of `tasks` names a
/// resource of `resources`.
pub open spec fn all_resolved(resources: Seq<SharedElement>, tasks: Seq<RticTask>) -> bool {
    forall|i: int, k: int|
        0 <= i < tasks.len() && 0 <= k < tasks[i].args.shared_idents@.len()
            ==> #[trigger] has_resource(resources, tasks[i].args.shared_idents@[k]@)
}

/// The first (task, resource) pair, in declaration order, whose resource
/// identifier does not resolve; `None` when every reference resolves.
fn find_orphan(shared: &SharedResources, hw_tasks: &Vec<HardwareTask>) -> (r: Option<
    (String, String),
>)
    ensures
        r is None <==> all_resolved(shared.resources@, hw_tasks@),
        match r {
            Option::Some(p) => exists|i: int, k: int|
                0 <= i < hw_tasks@.len() && 0 <= k < hw_tasks@[i].args.shared_idents@.len()
                    && !has_resource(shared.resources@, hw_tasks@[i].args.shared_idents@[k]@)
                    && p.0 == hw_tasks@[i].ident && p.1 == hw_tasks@[i].args.shared_idents@[k],
            Option::None => true,
        },
{
    let n = hw_tasks.len();
    let mut i: usize = 0;
    while i < n
        invariant
            n == hw_tasks@.len(),
            0 <= i <= n,
            forall|i2: int, k2: int|
                0 <= i2 < i && 0 <= k2 < hw_tasks@[i2].args.shared_idents@.len()
                    ==> #[trigger] has_resource(
                    shared.resources@,
                    hw_tasks@[i2].args.shared_idents@[k2]@,
                ),
        decreases n - i,
    {
        let task = &hw_tasks[i];
        let m = task.args.shared_idents.len();
        let mut k: usize = 0;
        while k < m
            invariant
                n == hw_tasks@.len(),
                0 <= i < n,
                *task == hw_tasks@[i as int],
                m == task.args.shared_idents@.len(),
                0 <= k <= m,
                forall|k2: int|
                    0 <= k2 < k ==> #[trigger] has_resource(
                        shared.resources@,
                        hw_tasks@[i as int].args.shared_idents@[k2]@,
                    ),
            decreases m - k,
        {
            let ident = &task.args.shared_idents[k];
            if shared.get_field(ident).is_none() {
                return Option::Some((task.ident.clone(), ident.clone()));
            }
            k += 1;
        }
        i += 1;
    }
    Option::None
}

// ---------------------------------------------------------------------------
// update_resource_priorities
// ---------------------------------------------------------------------------

/// Relation between a shared-resources declaration before and after one
/// propagation run over `tasks`: same options, same name, same resources in
/// the same order with the same types, and every ceiling propagated.
pub open spec fn priorities_updated(
    o: SharedResources,
    n: SharedResources,
    tasks: Seq<RticTask>,
) -> bool {
    &&& n.args == o.args
    &&& n.ident == o.ident
    &&& n.resources@.len() == o.resources@.len()
    &&& forall|j: int|
        0 <= j < o.resources@.len() ==> {
            &&& (#[trigger] n.resources@[j]).ident == o.resources@[j].ident
            &&& n.resources@[j].ty == o.resources@[j].ty
            &&& n.resources@[j].priority == ceiling_after(
                o.resources@[j].priority,
                o.resources@[j].ident@,
                tasks,
            )
        }
}

/// The ceiling of one resource after propagating every priority of `tasks`
/// over the starting value `p0`.
fn ceiling_for(p0: u16, name: &String, tasks: &Vec<HardwareTask>) -> (c: u16)
    ensures
        c == ceiling_after(p0, name@, tasks@),
{
    let n = tasks.len();
    let mut acc: u16 = p0;
    let mut i: usize = 0;
    while i < n
        invariant
            n == tasks@.len(),
            0 <= i <= n,
            acc == ceiling_after(p0, name@, tasks@.take(i as int)),
        decreases n - i,
    {
        if lists_ident(&tasks[i], name) && tasks[i].args.priority > acc {
            acc = tasks[i].args.priority;
        }
        proof {
            assert(tasks@.take(i + 1).drop_last() =~= tasks@.take(i as int));
            assert(tasks@.take(i + 1).last() == tasks@[i as int]);
        }
        i += 1;
    }
    proof {
        assert(tasks@.take(n as int) =~= tasks@);
    }
    acc
}

/// True when `t` declares access to the resource named `name`.
fn lists_ident(t: &RticTask, name: &String) -> (b: bool)
    ensures
        b == task_accesses(*t, name@),
{
    let m = t.args.shared_idents.len();
    let mut k: usize = 0;
    while k < m
        invariant
            m == t.args.shared_idents@.len(),
            0 <= k <= m,
            forall|k2: int| 0 <= k2 < k ==> t.args.shared_idents@[k2]@ != name@,
        decreases m - k,
    {
        if t.args.shared_idents[k].eq(name) {
            return true;
        }
        k += 1;
    }
    false
}

/// A copy of `resources` with every ceiling propagated over `tasks`.
fn updated_resources(resources: &Vec<SharedElement>, tasks: &Vec<HardwareTask>) -> (r: Vec<
    SharedElement,
>)
    ensures
        r@.len() == resources@.len(),
        forall|j: int|
            0 <= j < resources@.len() ==> {
                &&& (#[trigger] r@[j]).ident == resources@[j].ident
                &&& r@[j].ty == resources@[j].ty
                &&& r@[j].priority == ceiling_after(
                    resources@[j].priority,
                    resources@[j].ident@,
                    tasks@,
                )
            },
{
    let n = resources.len();
    let mut out: Vec<SharedElement> = Vec::new();
    let mut j: usize = 0;
    while j < n
        invariant
            n == resources@.len(),
            0 <= j <= n,
            out@.len() == j,
            forall|j2: int|
                0 <= j2 < j ==> {
                    &&& (#[trigger] out@[j2]).ident == resources@[j2].ident
                    &&& out@[j2].ty == resources@[j2].ty
                    &&& out@[j2].priority == ceiling_after(
                        resources@[j2].priority,
                        resources@[j2].ident@,
                        tasks@,
                    )
                },
        decreases n - j,
    {
        let e = &resources[j];
        let c = ceiling_for(e.priority, &e.ident, tasks);
        out.push(SharedElement { ident: e.ident.clone(), ty: e.ty.clone(), priority: c });
        j += 1;
    }
    out
}

/// Propagate task priorities into resource ceilings, re-validating every
/// resource reference on the way.
///
/// With no shared-resources declaration there is nothing to do. Otherwise the
/// call succeeds exactly when every resource identifier declared by the tasks
/// resolves, and then raises each resource's ceiling to the highest priority
/// among the tasks that access it (never lowering it below its starting
/// value). A dangling reference aborts the run with `ResourceNotFound`, naming
/// the offending task and resource, and leaves the declaration unchanged.
pub fn update_resource_priorities(
    shared: &mut Option<SharedResources>,
    hw_tasks: &Vec<HardwareTask>,
) -> (r: Result<(), Diagnostic>)
    ensures
        r is Ok <==> (match *old(shared) {
            Option::Some(sh) => all_resolved(sh.resources@, hw_tasks@),
            Option::None => true,
        }),
        match (*old(shared), *final(shared)) {
            (Option::None, Option::None) => true,
            (Option::Some(o), Option::Some(n)) => if r is Ok {
                priorities_updated(o, n, hw_tasks@)
            } else {
                n == o
            },
            _ => false,
        },
        match r {
            Result::Ok(_) => true,
            Result::Err(d) => {
                &&& d.kind == ErrorKind::ResourceNotFound
                &&& match *old(shared) {
                    Option::Some(o) => exists|i: int, k: int|
                        0 <= i < hw_tasks@.len() && 0 <= k
                            < hw_tasks@[i].args.shared_idents@.len() && !has_resource(
                            o.resources@,
                            hw_tasks@[i].args.shared_idents@[k]@,
                        ) && d.site == hw_tasks@[i].ident && d.detail
                            == hw_tasks@[i].args.shared_idents@[k],
                    Option::None => false,
                }
            },
        },
{
    match shared {
        Option::None => Result::Ok(()),
        Option::Some(sh) => {
            match find_orphan(sh, hw_tasks) {
                Option::Some(pair) => Result::Err(
                    Diagnostic::new(ErrorKind::ResourceNotFound, pair.0, pair.1),
                ),
                Option::None => {
                    let updated = updated_resources(&sh.resources, hw_tasks);
                    sh.resources = updated;
                    Result::Ok(())
                },
            }
        },
    }
}

// ---------------------------------------------------------------------------
// Interrupt usage
// ---------------------------------------------------------------------------

/// The (interrupt, priority) pairs of `tasks`, in declaration order, one per
/// task that binds an interrupt.
pub open spec fn irqs_of(tasks: Seq<RticTask>) -> Seq<(String, u16)>
    decreases tasks.len(),
{
    if tasks.len() == 0 {
        Seq::empty()
    } else {
        let rest = irqs_of(tasks.drop_last());
        match tasks.last().args.interrupt_handler_name {
            Option::Some(irq) => rest.push((irq, tasks.last().args.priority)),
            Option::None => rest,
        }
    }
}

/// The per-core analysis artifact: the set of (interrupt, priority) bindings
/// actually used by the hardware tasks of one sub-application.
#[derive(Debug)]
pub struct SubAnalysis {
    pub used_irqs: Vec<(String, u16)>,
}

impl SubAnalysis {
    /// Collect the interrupts bound by the hardware tasks of one
    /// sub-application, with their priorities, in declaration order.
    pub fn run(app: &SubApp) -> (r: Result<Self, Diagnostic>)
        ensures
            r matches Result::Ok(a) && a.used_irqs@ == irqs_of(app.tasks@),
    {
        let n = app.tasks.len();
        let mut used: Vec<(String, u16)> = Vec::new();
        let mut i: usize = 0;
        while i < n
            invariant
                n == app.tasks@.len(),
                0 <= i <= n,
                used@ == irqs_of(app.tasks@.take(i as int)),
            decreases n - i,
        {
            match &app.tasks[i].args.interrupt_handler_name {
                Option::Some(irq) => {
                    used.push((irq.clone(), app.tasks[i].args.priority));
                },
                Option::None => {},
            }
            proof {
                assert(app.tasks@.take(i + 1).drop_last() =~= app.tasks@.take(i as int));
                assert(app.tasks@.take(i + 1).last() == app.tasks@[i as int]);
            }
            i += 1;
        }
        proof {
            assert(app.tasks@.take(n as int) =~= app.tasks@);
        }
        Result::Ok(SubAnalysis { used_irqs: used })
    }
}

/// The analysis artifact of a whole application: one `SubAnalysis` per
/// sub-application, in core order.
#[derive(Debug)]
pub struct Analysis {
    pub sub_analysis: Vec<SubAnalysis>,
}

impl Analysis {
    /// Run the per-core analysis over every sub-application.
    pub fn run(app: &App) -> (r: Result<Self, Diagnostic>)
        ensures
            r matches Result::Ok(a) && a.sub_analysis@.len() == app.sub_apps@.len() && forall|i: int|
                0 <= i < app.sub_apps@.len() ==> (#[trigger] a.sub_analysis@[i]).used_irqs@
                    == irqs_of(app.sub_apps@[i].tasks@),
    {
        let n = app.sub_apps.len();
        let mut subs: Vec<SubAnalysis> = Vec::new();
        let mut i: usize = 0;
        while i < n
            invariant
                n == app.sub_apps@.len(),
                0 <= i <= n,
                subs@.len() == i,
                forall|j: int|
                    0 <= j < i ==> (#[trigger] subs@[j]).used_irqs@ == irqs_of(
                        app.sub_apps@[j].tasks@,
                    ),
            decreases n - i,
        {
            match SubAnalysis::run(&app.sub_apps[i]) {
                Result::Ok(sub) => subs.push(sub),
                Result::Err(d) => {
                    return Result::Err(d);
                },
            }
            i += 1;
        }
        Result::Ok(Analysis { sub_analysis: subs })
    }
}

} // verus!
