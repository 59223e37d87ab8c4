use crate::analysis::{
    all_resolved, ceiling_after, irqs_of, update_resource_priorities, Analysis,
};
use crate::ast::{App, AppArgs, RticTask, SharedElement, SubApp};
use crate::builder::{build, buildable, normalize_sub};
use crate::error::{Diagnostic, ErrorKind};
use vstd::prelude::*;

verus! {

/// Which stage of the pipeline produced a fragment.
#[derive(Clone, Copy, Debug, PartialEq, Eq, Structural)]
pub enum PassKind {
    PreStd,
    Std,
    Post,
}

/// The position of a stage in the pipeline's order.
pub open spec fn stage_rank(k: PassKind) -> int {
    match k {
        PassKind::PreStd => 0,
        PassKind::Std => 1,
        PassKind::Post => 2,
    }
}

/// One generated code fragment. Fragments carry the decisions of the core —
/// which interrupt is programmed at which priority, which resource is locked
/// at which ceiling — and are rendered into target source text outside of it.
#[derive(Debug)]
pub enum Fragment {
    /// The module of task and lock trait declarations.
    TraitsModule,
    /// The entry point of one core.
    EntryPoint { core: u32 },
    /// Programming of one interrupt's priority and enable bits.
    InterruptInit { core: u32, irq: String, priority: u16 },
    /// The dispatch wrapper of one hardware task.
    DispatchWrapper { core: u32, task: String, irq: String, priority: u16 },
    /// The priority-elevating lock of one resource, at its computed ceiling.
    ResourceProxy { core: u32, resource: String, ceiling: u16 },
    /// The idle loop of one core.
    IdleLoop { core: u32 },
    /// Text appended verbatim by a post pass.
    Extra { text: String },
}

/// A fragment together with the stage that produced it.
#[derive(Debug)]
pub struct TaggedFragment {
    pub stage: PassKind,
    pub item: Fragment,
}

/// The assembled output of one pipeline run.
#[derive(Debug)]
pub struct Assembled {
    pub fragments: Vec<TaggedFragment>,
}

// ---------------------------------------------------------------------------
// The backend capability interface
// ---------------------------------------------------------------------------

/// The fixed capability interface a target backend fills, dispatched by
/// pattern match: one variant per supported backend.
#[derive(Clone, Copy, Debug, PartialEq, Eq, Structural)]
pub enum Backend {
    /// The reference interrupt-controller backend.
    Hippo,
}

impl Backend {
    /// The priority floor of the backend.
    pub open spec fn spec_floor(self) -> u16 {
        match self {
            Backend::Hippo => 0u16,
        }
    }

    /// The entry symbol of one core.
    pub open spec fn spec_entry_name(self, core: u32) -> Seq<char> {
        match self {
            Backend::Hippo => "main"@,
        }
    }

    /// Whether the idle loop enters a low-power wait each iteration.
    pub open spec fn spec_has_wfi(self) -> bool {
        match self {
            Backend::Hippo => false,
        }
    }

    /// Whether the backend can mark an interrupt pending on another core.
    pub open spec fn spec_cross_pend(self) -> bool {
        match self {
            Backend::Hippo => false,
        }
    }

    /// The priority assigned to a task that declares none.
    pub fn default_task_priority(&self) -> (r: u16)
        ensures
            r == self.spec_floor(),
    {
        match self {
            Backend::Hippo => 0,
        }
    }

    /// The generated program's entry symbol for `core`.
    pub fn entry_name(&self, core: u32) -> (r: String)
        ensures
            r@ == self.spec_entry_name(core),
    {
        match self {
            Backend::Hippo => crate::ast::string_from("main"),
        }
    }

    /// Whether the idle loop enters a low-power wait each iteration.
    pub fn has_wfi(&self) -> (r: bool)
        ensures
            r == self.spec_has_wfi(),
    {
        match self {
            Backend::Hippo => false,
        }
    }

    /// Whether the backend can mark an interrupt pending on another core.
    pub fn supports_cross_pend(&self) -> (r: bool)
        ensures
            r == self.spec_cross_pend(),
    {
        match self {
            Backend::Hippo => false,
        }
    }
}

// ---------------------------------------------------------------------------
// Passes
// ---------------------------------------------------------------------------

/// A pre-standard pass rewrites the model before the standard pass sees it.
/// The software-dispatch pass has this shape: it turns software tasks into
/// hardware tasks bound to a synthesized interrupt and appends them to one
/// core's task list. A pass that must pend interrupts across cores is
/// rejected outright when the backend lacks that capability.
#[derive(Debug)]
pub struct PrePass {
    /// Core whose sub-application receives the synthesized tasks.
    pub core: u32,
    /// The synthesized tasks, in the order they are appended.
    pub tasks: Vec<RticTask>,
    /// Whether the pass needs the cross-core pend capability.
    pub needs_cross_pend: bool,
}

/// A post pass may only append to what the standard pass produced; its whole
/// contribution is the fragments it appends, in order.
#[derive(Debug)]
pub struct PostPass {
    pub fragments: Vec<Fragment>,
}

/// Whether every pre-standard pass applies: its target core exists and the
/// capabilities it needs are present.
pub open spec fn pres_ok(ncores: int, passes: Seq<PrePass>, backend: Backend) -> bool {
    forall|i: int|
        0 <= i < passes.len() ==> (#[trigger] passes[i]).core < ncores && (passes[i].needs_cross_pend
            ==> backend.spec_cross_pend())
}

/// The task list of core `c` after the pre-standard passes ran, in order:
/// each pass whose target is `c` appends its synthesized tasks.
pub open spec fn final_tasks(subs: Seq<SubApp>, passes: Seq<PrePass>, c: int) -> Seq<RticTask>
    decreases passes.len(),
{
    if passes.len() == 0 {
        subs[c].tasks@
    } else {
        let prev = final_tasks(subs, passes.drop_last(), c);
        if passes.last().core == c {
            prev + passes.last().tasks@
        } else {
            prev
        }
    }
}

/// The resources of a declaration with every ceiling propagated over `tasks`.
pub open spec fn updated_elems(rs: Seq<SharedElement>, tasks: Seq<RticTask>) -> Seq<SharedElement> {
    rs.map_values(
        |e: SharedElement|
            (SharedElement {
                ident: e.ident,
                ty: e.ty,
                priority: ceiling_after(e.priority, e.ident@, tasks),
            }),
    )
}

/// Whether the ceiling analysis succeeds on core `c` once the pre-standard
/// passes ran: every resource reference of the final task list resolves.
pub open spec fn final_resolved(subs: Seq<SubApp>, passes: Seq<PrePass>, c: int) -> bool {
    match subs[c].shared {
        Option::Some(sh) => all_resolved(sh.resources@, final_tasks(subs, passes, c)),
        Option::None => true,
    }
}

// ---------------------------------------------------------------------------
// The standard pass, as a mathematical description of its output
// ---------------------------------------------------------------------------

/// The larger of two priorities.
pub open spec fn max_u16(a: u16, b: u16) -> u16 {
    if a > b {
        a
    } else {
        b
    }
}

/// Interrupt-initialization fragments: one per used interrupt, its priority
/// clamped to the floor.
pub open spec fn irq_init_frags(core: u32, irqs: Seq<(String, u16)>, floor: u16) -> Seq<
    TaggedFragment,
> {
    irqs.map_values(
        |p: (String, u16)|
            (TaggedFragment {
                stage: PassKind::Std,
                item: Fragment::InterruptInit { core, irq: p.0, priority: max_u16(p.1, floor) },
            }),
    )
}

/// Dispatch-wrapper fragments: one per hardware task with a bound interrupt,
/// in declaration order.
pub open spec fn dispatch_frags(core: u32, tasks: Seq<RticTask>) -> Seq<TaggedFragment>
    decreases tasks.len(),
{
    if tasks.len() == 0 {
        Seq::empty()
    } else {
        let rest = dispatch_frags(core, tasks.drop_last());
        match tasks.last().args.interrupt_handler_name {
            Option::Some(irq) => rest.push(
                TaggedFragment {
                    stage: PassKind::Std,
                    item: Fragment::DispatchWrapper {
                        core,
                        task: tasks.last().ident,
                        irq,
                        priority: tasks.last().args.priority,
                    },
                },
            ),
            Option::None => rest,
        }
    }
}

/// Resource-proxy fragments: one per shared resource, locked at its ceiling.
pub open spec fn proxy_frags(core: u32, rs: Seq<SharedElement>) -> Seq<TaggedFragment> {
    rs.map_values(
        |e: SharedElement|
            (TaggedFragment {
                stage: PassKind::Std,
                item: Fragment::ResourceProxy { core, resource: e.ident, ceiling: e.priority },
            }),
    )
}

/// The standard-pass fragments of one core: entry point, interrupt
/// initialization, dispatch wrappers, resource proxies, and the idle loop when
/// an idle task is declared.
pub open spec fn sub_std_frags(
    core: u32,
    tasks: Seq<RticTask>,
    rs: Seq<SharedElement>,
    has_idle: bool,
    floor: u16,
) -> Seq<TaggedFragment> {
    seq![TaggedFragment { stage: PassKind::Std, item: Fragment::EntryPoint { core } }]
        + irq_init_frags(core, irqs_of(tasks), floor) + dispatch_frags(core, tasks) + proxy_frags(
        core,
        updated_elems(rs, tasks),
    ) + (if has_idle {
        seq![TaggedFragment { stage: PassKind::Std, item: Fragment::IdleLoop { core } }]
    } else {
        Seq::empty()
    })
}

/// The resources declared for core `c`, before analysis.
pub open spec fn declared_elems(subs: Seq<SubApp>, c: int) -> Seq<SharedElement> {
    match subs[c].shared {
        Option::Some(sh) => sh.resources@,
        Option::None => Seq::empty(),
    }
}

/// The standard-pass fragments of the first `upto` cores.
pub open spec fn std_frags_upto(
    subs: Seq<SubApp>,
    passes: Seq<PrePass>,
    floor: u16,
    upto: int,
) -> Seq<TaggedFragment>
    decreases upto,
{
    if upto <= 0 {
        Seq::empty()
    } else {
        std_frags_upto(subs, passes, floor, upto - 1) + sub_std_frags(
            subs[upto - 1].core,
            final_tasks(subs, passes, upto - 1),
            declared_elems(subs, upto - 1),
            subs[upto - 1].idle is Some,
            floor,
        )
    }
}

/// The fragments the post passes append, in order, tagged as post output.
pub open spec fn post_frags(posts: Seq<PostPass>) -> Seq<TaggedFragment>
    decreases posts.len(),
{
    if posts.len() == 0 {
        Seq::empty()
    } else {
        post_frags(posts.drop_last()) + posts.last().fragments@.map_values(
            |f: Fragment| (TaggedFragment { stage: PassKind::Post, item: f }),
        )
    }
}

/// The whole assembled output: the trait module and the per-core standard
/// output, then everything the post passes append.
pub open spec fn pipeline_frags(
    subs: Seq<SubApp>,
    passes: Seq<PrePass>,
    posts: Seq<PostPass>,
    floor: u16,
) -> Seq<TaggedFragment> {
    seq![TaggedFragment { stage: PassKind::Std, item: Fragment::TraitsModule }] + std_frags_upto(
        subs,
        passes,
        floor,
        subs.len() as int,
    ) + post_frags(posts)
}

/// Whether one pipeline run succeeds: the declarations build, every
/// pre-standard pass applies, and after the passes every resource reference
/// still resolves.
pub open spec fn run_ok(
    args: AppArgs,
    subs: Seq<SubApp>,
    passes: Seq<PrePass>,
    backend: Backend,
) -> bool {
    &&& buildable(args, subs)
    &&& pres_ok(subs.len() as int, passes, backend)
    &&& forall|c: int| 0 <= c < subs.len() ==> #[trigger] final_resolved(subs, passes, c)
}

// ---------------------------------------------------------------------------
// The pipeline
// ---------------------------------------------------------------------------

/// State of one sub-application while the pre-standard passes run: built and
/// normalized, with the synthesized tasks of the passes seen so far appended.
spec fn sub_mid(
    s: SubApp,
    orig: Seq<SubApp>,
    passes: Seq<PrePass>,
    c: int,
    floor: u16,
) -> bool {
    let base = normalize_sub(orig[c], floor);
    &&& s.core == base.core
    &&& s.init == base.init
    &&& s.idle == base.idle
    &&& s.shared == base.shared
    &&& s.tasks@ == final_tasks(orig, passes, c)
}

/// State of one sub-application after the ceiling analysis: as `sub_mid` with
/// the full pass list, and every resource ceiling propagated.
spec fn sub_done(
    s: SubApp,
    orig: Seq<SubApp>,
    passes: Seq<PrePass>,
    c: int,
    floor: u16,
) -> bool {
    let base = normalize_sub(orig[c], floor);
    &&& s.core == base.core
    &&& s.init == base.init
    &&& s.idle == base.idle
    &&& s.tasks@ == final_tasks(orig, passes, c)
    &&& match (orig[c].shared, s.shared) {
        (Option::Some(osh), Option::Some(nsh)) => nsh.args == osh.args && nsh.ident == osh.ident
            && nsh.resources@ == updated_elems(osh.resources@, final_tasks(orig, passes, c)),
        (Option::None, Option::None) => true,
        _ => false,
    }
}

/// The ordered pass pipeline: zero or more pre-standard passes, the standard
/// pass, zero or more post passes, over one backend.
#[derive(Debug)]
pub struct Pipeline {
    pub backend: Backend,
    pub pre_passes: Vec<PrePass>,
    pub post_passes: Vec<PostPass>,
}

impl Pipeline {
    /// An empty pipeline over `backend`: just the standard pass.
    pub fn new(backend: Backend) -> (r: Pipeline)
        ensures
            r.backend == backend,
            r.pre_passes@ =~= Seq::<PrePass>::empty(),
            r.post_passes@ =~= Seq::<PostPass>::empty(),
    {
        Pipeline { backend, pre_passes: Vec::new(), post_passes: Vec::new() }
    }

    /// Append a pre-standard pass; pre-standard passes run in the order they
    /// were bound.
    pub fn bind_pre_std_pass(&mut self, p: PrePass)
        ensures
            final(self).backend == old(self).backend,
            final(self).pre_passes@ == old(self).pre_passes@.push(p),
            final(self).post_passes@ == old(self).post_passes@,
    {
        self.pre_passes.push(p);
    }

    /// Append a post pass; post passes run in the order they were bound.
    pub fn bind_post_std_pass(&mut self, p: PostPass)
        ensures
            final(self).backend == old(self).backend,
            final(self).pre_passes@ == old(self).pre_passes@,
            final(self).post_passes@ == old(self).post_passes@.push(p),
    {
        self.post_passes.push(p);
    }

    /// Run the whole pipeline over the resolved declarations: build and
    /// validate the model, let the pre-standard passes rewrite it, run the
    /// ceiling analysis on what they produced, emit the standard pass's
    /// fragments, and append the post passes' output.
    ///
    /// The run succeeds exactly when the model builds, every pre-standard
    /// pass applies, and every resource reference of the rewritten model
    /// resolves; the assembled fragments are then exactly
    /// `pipeline_frags(...)` over the declarations and passes.
    pub fn run(self, args: AppArgs, sub_apps: Vec<SubApp>) -> (r: Result<Assembled, Diagnostic>)
        ensures
            r is Ok <==> run_ok(args, sub_apps@, self.pre_passes@, self.backend),
            r matches Result::Ok(out) ==> out.fragments@ == pipeline_frags(
                sub_apps@,
                self.pre_passes@,
                self.post_passes@,
                self.backend.spec_floor(),
            ),
            r matches Result::Err(d) ==> {
                &&& d.kind == ErrorKind::MissingRequiredConfig ==> exists|i: int|
                    0 <= i < self.pre_passes@.len() && (
                    #[trigger] self.pre_passes@[i]).needs_cross_pend
                        && !self.backend.spec_cross_pend()
                &&& d.kind == ErrorKind::ResourceNotFound ==> exists|c: int|
                    0 <= c < sub_apps@.len() && !(#[trigger] final_resolved(
                        sub_apps@,
                        self.pre_passes@,
                        c,
                    ))
                &&& d.kind == ErrorKind::InvalidCoreAssignment ==> (!buildable(args, sub_apps@)
                    || exists|i: int|
                    0 <= i < self.pre_passes@.len() && (#[trigger] self.pre_passes@[i]).core
                        >= sub_apps@.len())
                &&& d.kind == ErrorKind::DuplicateInterruptBinding ==> exists|c: int|
                    0 <= c < sub_apps@.len() && !crate::builder::bindings_distinct(
                        (#[trigger] sub_apps@[c]).tasks@,
                    )
            },
    {
        let Pipeline { backend, pre_passes, post_passes } = self;
        let ghost orig = sub_apps@;
        let ghost passes_seq = pre_passes@;
        let ghost posts_seq = post_passes@;
        let floor = backend.default_task_priority();

        // Built
        let mut app = match build(args, sub_apps, floor) {
            Result::Ok(a) => a,
            Result::Err(d) => {
                return Result::Err(d);
            },
        };
        let ncores = app.sub_apps.len();

        // PreStd*
        let npasses = pre_passes.len();
        let mut passes = pre_passes;
        let mut pi: usize = 0;
        while pi < npasses
            invariant
                orig == sub_apps@,
                passes_seq == self.pre_passes@,
                backend == self.backend,
                orig.len() == ncores,
                npasses == passes_seq.len(),
                0 <= pi <= npasses,
                passes@ =~= passes_seq.skip(pi as int),
                app.args == args,
                app.sub_apps@.len() == ncores,
                pres_ok(ncores as int, passes_seq.take(pi as int), backend),
                forall|c: int|
                    0 <= c < ncores ==> sub_mid(
                        #[trigger] app.sub_apps@[c],
                        orig,
                        passes_seq.take(pi as int),
                        c,
                        floor,
                    ),
            decreases npasses - pi,
        {
            let p = passes.remove(0);
            proof {
                assert(p == passes_seq[pi as int]);
                assert(passes@ =~= passes_seq.skip(pi as int + 1));
            }
            if p.needs_cross_pend && !backend.supports_cross_pend() {
                proof {
                    assert(!pres_ok(ncores as int, passes_seq, backend)) by {
                        if pres_ok(ncores as int, passes_seq, backend) {
                            assert((#[trigger] passes_seq[pi as int]).core < ncores as int && (
                            passes_seq[pi as int].needs_cross_pend ==> backend.spec_cross_pend()));
                        }
                    }
                }
                return Result::Err(
                    Diagnostic::new(
                        ErrorKind::MissingRequiredConfig,
                        String::new(),
                        crate::ast::string_from("cross_core_pend"),
                    ),
                );
            }
            if p.core as usize >= ncores {
                proof {
                    assert(!pres_ok(ncores as int, passes_seq, backend)) by {
                        if pres_ok(ncores as int, passes_seq, backend) {
                            assert((#[trigger] passes_seq[pi as int]).core < ncores as int && (
                            passes_seq[pi as int].needs_cross_pend ==> backend.spec_cross_pend()));
                        }
                    }
                }
                return Result::Err(
                    Diagnostic::new(
                        ErrorKind::InvalidCoreAssignment,
                        String::new(),
                        crate::ast::string_from("core"),
                    ),
                );
            }
            let cidx = p.core as usize;
            let ghost subs_before = app.sub_apps@;
            let mut sub = app.sub_apps.remove(cidx);
            let mut ts = p.tasks;
            let total = ts.len();
            let ghost added = ts@;
            let ghost tasks_before = sub.tasks@;
            let mut ti: usize = 0;
            while ti < total
                invariant
                    total == added.len(),
                    0 <= ti <= total,
                    ts@ =~= added.skip(ti as int),
                    sub.tasks@ == tasks_before + added.take(ti as int),
                    sub.core == subs_before[cidx as int].core,
                    sub.init == subs_before[cidx as int].init,
                    sub.idle == subs_before[cidx as int].idle,
                    sub.shared == subs_before[cidx as int].shared,
                    0 <= cidx < subs_before.len(),
                decreases total - ti,
            {
                let t = ts.remove(0);
                proof {
                    assert(t == added[ti as int]);
                    assert(ts@ =~= added.skip(ti as int + 1));
                }
                sub.tasks.push(t);
                proof {
                    assert(sub.tasks@ =~= tasks_before + added.take(ti as int + 1));
                }
                ti += 1;
            }
            proof {
                assert(sub.tasks@ =~= tasks_before + added);
            }
            app.sub_apps.insert(cidx, sub);
            proof {
                assert(app.sub_apps@ =~= subs_before.update(
                    cidx as int,
                    SubApp {
                        core: subs_before[cidx as int].core,
                        init: subs_before[cidx as int].init,
                        idle: subs_before[cidx as int].idle,
                        tasks: app.sub_apps@[cidx as int].tasks,
                        shared: subs_before[cidx as int].shared,
                    },
                ));
                assert(passes_seq.take(pi as int + 1).drop_last() =~= passes_seq.take(pi as int));
                assert(passes_seq.take(pi as int + 1).last() == passes_seq[pi as int]);
                assert forall|c: int| 0 <= c < ncores implies sub_mid(
                    #[trigger] app.sub_apps@[c],
                    orig,
                    passes_seq.take(pi as int + 1),
                    c,
                    floor,
                ) by {
                    assert(sub_mid(subs_before[c], orig, passes_seq.take(pi as int), c, floor));
                    if c == cidx as int {
                        assert(app.sub_apps@[c].tasks@ == tasks_before + added);
                    }
                }
                assert(pres_ok(ncores as int, passes_seq.take(pi as int + 1), backend)) by {
                    assert forall|i: int|
                        0 <= i < pi as int + 1 implies (#[trigger] passes_seq.take(
                        pi as int + 1,
                    )[i]).core < ncores as int && (passes_seq.take(pi as int + 1)[i].needs_cross_pend
                        ==> backend.spec_cross_pend()) by {
                        if i < pi as int {
                            assert(passes_seq.take(pi as int + 1)[i] == passes_seq.take(
                                pi as int,
                            )[i]);
                            assert((#[trigger] passes_seq.take(pi as int)[i]).core < ncores as int
                                && (passes_seq.take(pi as int)[i].needs_cross_pend
                                ==> backend.spec_cross_pend()));
                        } else {
                            assert(passes_seq.take(pi as int + 1)[i] == passes_seq[pi as int]);
                        }
                    }
                }
            }
            pi += 1;
        }
        proof {
            assert(passes_seq.take(npasses as int) =~= passes_seq);
        }

        // Analyzed: ceilings, re-validating every reference
        let mut c: usize = 0;
        while c < ncores
            invariant
                orig == sub_apps@,
                passes_seq == self.pre_passes@,
                backend == self.backend,
                orig.len() == ncores,
                app.args == args,
                app.sub_apps@.len() == ncores,
                0 <= c <= ncores,
                forall|c2: int|
                    0 <= c2 < c ==> sub_done(
                        #[trigger] app.sub_apps@[c2],
                        orig,
                        passes_seq,
                        c2,
                        floor,
                    ) && final_resolved(orig, passes_seq, c2),
                forall|c2: int|
                    c <= c2 < ncores ==> sub_mid(
                        #[trigger] app.sub_apps@[c2],
                        orig,
                        passes_seq,
                        c2,
                        floor,
                    ),
            decreases ncores - c,
        {
            let ghost subs_before = app.sub_apps@;
            let mut sub = app.sub_apps.remove(c);
            proof {
                assert(sub == subs_before[c as int]);
            }
            let ghost shared_before = sub.shared;
            match update_resource_priorities(&mut sub.shared, &sub.tasks) {
                Result::Err(d) => {
                    proof {
                        assert(!final_resolved(orig, passes_seq, c as int));
                    }
                    return Result::Err(d);
                },
                Result::Ok(_) => {},
            }
            proof {
                if sub.shared is Some {
                    assert(sub.shared.unwrap().resources@ =~= updated_elems(
                        shared_before.unwrap().resources@,
                        sub.tasks@,
                    ));
                }
                assert(final_resolved(orig, passes_seq, c as int));
                assert(sub_done(sub, orig, passes_seq, c as int, floor));
            }
            let ghost new_sub = sub;
            app.sub_apps.insert(c, sub);
            proof {
                assert(app.sub_apps@ =~= subs_before.update(c as int, new_sub));
                assert forall|c2: int| 0 <= c2 < c as int + 1 implies sub_done(
                    #[trigger] app.sub_apps@[c2],
                    orig,
                    passes_seq,
                    c2,
                    floor,
                ) && final_resolved(orig, passes_seq, c2) by {
                    if c2 < c as int {
                        assert(sub_done(subs_before[c2], orig, passes_seq, c2, floor)
                            && final_resolved(orig, passes_seq, c2));
                        assert(app.sub_apps@[c2] == subs_before[c2]);
                    } else {
                        assert(app.sub_apps@[c2] == new_sub);
                        assert(sub_done(new_sub, orig, passes_seq, c2, floor));
                        assert(final_resolved(orig, passes_seq, c2));
                    }
                }
                assert forall|c2: int| c as int + 1 <= c2 < ncores implies sub_mid(
                    #[trigger] app.sub_apps@[c2],
                    orig,
                    passes_seq,
                    c2,
                    floor,
                ) by {
                    assert(app.sub_apps@[c2] == subs_before[c2]);
                    assert(sub_mid(subs_before[c2], orig, passes_seq, c2, floor));
                }
            }
            c += 1;
        }

        let analysis = match Analysis::run(&app) {
            Result::Ok(a) => a,
            Result::Err(d) => {
                return Result::Err(d);
            },
        };

        // Std
        let mut frags: Vec<TaggedFragment> = Vec::new();
        frags.push(TaggedFragment { stage: PassKind::Std, item: Fragment::TraitsModule });
        let ghost header = seq![
            TaggedFragment { stage: PassKind::Std, item: Fragment::TraitsModule },
        ];
        proof {
            assert(frags@ =~= header + std_frags_upto(orig, passes_seq, floor, 0));
        }
        let mut c: usize = 0;
        while c < ncores
            invariant
                orig.len() == ncores,
                app.sub_apps@.len() == ncores,
                0 <= c <= ncores,
                analysis.sub_analysis@.len() == ncores,
                forall|c2: int|
                    0 <= c2 < ncores ==> sub_done(
                        #[trigger] app.sub_apps@[c2],
                        orig,
                        passes_seq,
                        c2,
                        floor,
                    ),
                forall|c2: int|
                    0 <= c2 < ncores ==> (#[trigger] analysis.sub_analysis@[c2]).used_irqs@
                        == irqs_of(app.sub_apps@[c2].tasks@),
                frags@ == header + std_frags_upto(orig, passes_seq, floor, c as int),
            decreases ncores - c,
        {
            let ghost ftasks = final_tasks(orig, passes_seq, c as int);
            let ghost seg_start = frags@;
            let core_val = app.sub_apps[c].core;
            frags.push(TaggedFragment { stage: PassKind::Std, item: Fragment::EntryPoint { core: core_val } });
            let ghost after_entry = frags@;

            // interrupt initialization, clamped to the floor
            let nirqs = analysis.sub_analysis[c].used_irqs.len();
            let mut k: usize = 0;
            while k < nirqs
                invariant
                    0 <= c < ncores,
                    app.sub_apps@.len() == ncores,
                    analysis.sub_analysis@.len() == ncores,
                    nirqs == analysis.sub_analysis@[c as int].used_irqs@.len(),
                    0 <= k <= nirqs,
                    frags@ == after_entry + irq_init_frags(
                        core_val,
                        analysis.sub_analysis@[c as int].used_irqs@.take(k as int),
                        floor,
                    ),
                decreases nirqs - k,
            {
                let ghost irqs = analysis.sub_analysis@[c as int].used_irqs@;
                let irq_name = analysis.sub_analysis[c].used_irqs[k].0.clone();
                let p0 = analysis.sub_analysis[c].used_irqs[k].1;
                let pr = if p0 > floor {
                    p0
                } else {
                    floor
                };
                frags.push(
                    TaggedFragment {
                        stage: PassKind::Std,
                        item: Fragment::InterruptInit { core: core_val, irq: irq_name, priority: pr },
                    },
                );
                proof {
                    assert(irqs.take(k as int + 1) =~= irqs.take(k as int).push(irqs[k as int]));
                    assert(irq_init_frags(core_val, irqs.take(k as int + 1), floor) =~= irq_init_frags(
                        core_val,
                        irqs.take(k as int),
                        floor,
                    ).push(
                        TaggedFragment {
                            stage: PassKind::Std,
                            item: Fragment::InterruptInit {
                                core: core_val,
                                irq: irqs[k as int].0,
                                priority: max_u16(irqs[k as int].1, floor),
                            },
                        },
                    ));
                }
                k += 1;
            }
            proof {
                let irqs = analysis.sub_analysis@[c as int].used_irqs@;
                assert(irqs.take(nirqs as int) =~= irqs);
                assert(irqs == irqs_of(app.sub_apps@[c as int].tasks@));
                assert(app.sub_apps@[c as int].tasks@ == ftasks);
            }
            let ghost after_irqs = frags@;

            // dispatch wrappers
            let ntasks = app.sub_apps[c].tasks.len();
            let mut i: usize = 0;
            while i < ntasks
                invariant
                    0 <= c < ncores,
                    app.sub_apps@.len() == ncores,
                    ntasks == app.sub_apps@[c as int].tasks@.len(),
                    0 <= i <= ntasks,
                    frags@ == after_irqs + dispatch_frags(
                        core_val,
                        app.sub_apps@[c as int].tasks@.take(i as int),
                    ),
                decreases ntasks - i,
            {
                let ghost tasks = app.sub_apps@[c as int].tasks@;
                match &app.sub_apps[c].tasks[i].args.interrupt_handler_name {
                    Option::Some(irq) => {
                        let task_name = app.sub_apps[c].tasks[i].ident.clone();
                        let pr = app.sub_apps[c].tasks[i].args.priority;
                        frags.push(
                            TaggedFragment {
                                stage: PassKind::Std,
                                item: Fragment::DispatchWrapper {
                                    core: core_val,
                                    task: task_name,
                                    irq: irq.clone(),
                                    priority: pr,
                                },
                            },
                        );
                    },
                    Option::None => {},
                }
                proof {
                    assert(tasks.take(i as int + 1).drop_last() =~= tasks.take(i as int));
                    assert(tasks.take(i as int + 1).last() == tasks[i as int]);
                }
                i += 1;
            }
            proof {
                let tasks = app.sub_apps@[c as int].tasks@;
                assert(tasks.take(ntasks as int) =~= tasks);
            }
            let ghost after_dispatch = frags@;

            // resource proxies at their ceilings
            match &app.sub_apps[c].shared {
                Option::Some(sh) => {
                    let nres = sh.resources.len();
                    let mut j: usize = 0;
                    while j < nres
                        invariant
                            nres == sh.resources@.len(),
                            0 <= j <= nres,
                            frags@ == after_dispatch + proxy_frags(
                                core_val,
                                sh.resources@.take(j as int),
                            ),
                        decreases nres - j,
                    {
                        let resource = sh.resources[j].ident.clone();
                        let ceiling = sh.resources[j].priority;
                        frags.push(
                            TaggedFragment {
                                stage: PassKind::Std,
                                item: Fragment::ResourceProxy { core: core_val, resource, ceiling },
                            },
                        );
                        proof {
                            assert(sh.resources@.take(j as int + 1) =~= sh.resources@.take(
                                j as int,
                            ).push(sh.resources@[j as int]));
                            assert(proxy_frags(core_val, sh.resources@.take(j as int + 1))
                                =~= proxy_frags(core_val, sh.resources@.take(j as int)).push(
                                TaggedFragment {
                                    stage: PassKind::Std,
                                    item: Fragment::ResourceProxy {
                                        core: core_val,
                                        resource: sh.resources@[j as int].ident,
                                        ceiling: sh.resources@[j as int].priority,
                                    },
                                },
                            ));
                        }
                        j += 1;
                    }
                    proof {
                        assert(sh.resources@.take(nres as int) =~= sh.resources@);
                    }
                },
                Option::None => {
                    proof {
                        assert(declared_elems(orig, c as int) =~= Seq::<SharedElement>::empty());
                        assert(updated_elems(declared_elems(orig, c as int), ftasks)
                            =~= Seq::<SharedElement>::empty());
                        assert(proxy_frags(core_val, updated_elems(declared_elems(orig, c as int), ftasks))
                            =~= Seq::<TaggedFragment>::empty());
                    }
                },
            }
            proof {
                match (orig[c as int].shared, app.sub_apps@[c as int].shared) {
                    (Option::Some(osh), Option::Some(nsh)) => {
                        assert(declared_elems(orig, c as int) == osh.resources@);
                        assert(nsh.resources@ == updated_elems(osh.resources@, ftasks));
                    },
                    _ => {},
                }
            }
            let ghost after_proxies = frags@;

            // the idle loop
            let has_idle = match &app.sub_apps[c].idle {
                Option::Some(_) => true,
                Option::None => false,
            };
            if has_idle {
                frags.push(
                    TaggedFragment { stage: PassKind::Std, item: Fragment::IdleLoop { core: core_val } },
                );
            }
            proof {
                assert(orig[c as int].idle is Some <==> app.sub_apps@[c as int].idle is Some);
                assert(core_val == orig[c as int].core);
                assert(frags@ =~= seg_start + sub_std_frags(
                    orig[c as int].core,
                    ftasks,
                    declared_elems(orig, c as int),
                    orig[c as int].idle is Some,
                    floor,
                ));
                assert(frags@ =~= header + std_frags_upto(orig, passes_seq, floor, c as int + 1));
            }
            c += 1;
        }

        // Post*
        let nposts = post_passes.len();
        let mut posts = post_passes;
        let ghost std_part = frags@;
        let mut qi: usize = 0;
        while qi < nposts
            invariant
                nposts == posts_seq.len(),
                0 <= qi <= nposts,
                posts@ =~= posts_seq.skip(qi as int),
                frags@ == std_part + post_frags(posts_seq.take(qi as int)),
            decreases nposts - qi,
        {
            let p = posts.remove(0);
            proof {
                assert(p == posts_seq[qi as int]);
                assert(posts@ =~= posts_seq.skip(qi as int + 1));
            }
            let mut items = p.fragments;
            let total = items.len();
            let ghost added = items@;
            let ghost before_pass = frags@;
            let mut ti: usize = 0;
            while ti < total
                invariant
                    total == added.len(),
                    0 <= ti <= total,
                    items@ =~= added.skip(ti as int),
                    frags@ == before_pass + added.take(ti as int).map_values(
                        |f: Fragment| (TaggedFragment { stage: PassKind::Post, item: f }),
                    ),
                decreases total - ti,
            {
                let f = items.remove(0);
                proof {
                    assert(f == added[ti as int]);
                    assert(items@ =~= added.skip(ti as int + 1));
                }
                frags.push(TaggedFragment { stage: PassKind::Post, item: f });
                proof {
                    assert(added.take(ti as int + 1) =~= added.take(ti as int).push(
                        added[ti as int],
                    ));
                    assert(added.take(ti as int + 1).map_values(
                        |f2: Fragment| (TaggedFragment { stage: PassKind::Post, item: f2 }),
                    ) =~= added.take(ti as int).map_values(
                        |f2: Fragment| (TaggedFragment { stage: PassKind::Post, item: f2 }),
                    ).push(TaggedFragment { stage: PassKind::Post, item: added[ti as int] }));
                }
                ti += 1;
            }
            proof {
                assert(added.take(total as int) =~= added);
                assert(posts_seq.take(qi as int + 1).drop_last() =~= posts_seq.take(qi as int));
                assert(posts_seq.take(qi as int + 1).last() == posts_seq[qi as int]);
            }
            qi += 1;
        }
        proof {
            assert(posts_seq.take(nposts as int) =~= posts_seq);
            assert(frags@ == pipeline_frags(orig, passes_seq, posts_seq, floor));
            assert forall|c2: int| 0 <= c2 < orig.len() implies #[trigger] final_resolved(
                orig,
                passes_seq,
                c2,
            ) by {
                assert(sub_done(app.sub_apps@[c2], orig, passes_seq, c2, floor) && final_resolved(
                    orig,
                    passes_seq,
                    c2,
                ));
            }
        }
        Result::Ok(Assembled { fragments: frags })
    }
}

// ---------------------------------------------------------------------------
// Pipeline laws
// ---------------------------------------------------------------------------

/// Every dispatch-wrapper fragment is standard-pass output.
proof fn lemma_dispatch_frags_std(core: u32, tasks: Seq<RticTask>)
    ensures
        forall|i: int|
            0 <= i < dispatch_frags(core, tasks).len() ==> (#[trigger] dispatch_frags(
                core,
                tasks,
            )[i]).stage == PassKind::Std,
    decreases tasks.len(),
{
    if tasks.len() > 0 {
        lemma_dispatch_frags_std(core, tasks.drop_last());
    }
}

/// Every fragment of one core's standard output is standard-pass output.
proof fn lemma_sub_std_frags_std(
    core: u32,
    tasks: Seq<RticTask>,
    rs: Seq<SharedElement>,
    has_idle: bool,
    floor: u16,
)
    ensures
        forall|i: int|
            0 <= i < sub_std_frags(core, tasks, rs, has_idle, floor).len() ==> (
            #[trigger] sub_std_frags(core, tasks, rs, has_idle, floor)[i]).stage == PassKind::Std,
{
    lemma_dispatch_frags_std(core, tasks);
}

/// Every fragment of the standard pass is standard-pass output.
proof fn lemma_std_frags_upto_std(subs: Seq<SubApp>, passes: Seq<PrePass>, floor: u16, upto: int)
    ensures
        forall|i: int|
            0 <= i < std_frags_upto(subs, passes, floor, upto).len() ==> (
            #[trigger] std_frags_upto(subs, passes, floor, upto)[i]).stage == PassKind::Std,
    decreases upto,
{
    if upto > 0 {
        lemma_std_frags_upto_std(subs, passes, floor, upto - 1);
        lemma_sub_std_frags_std(
            subs[upto - 1].core,
            final_tasks(subs, passes, upto - 1),
            declared_elems(subs, upto - 1),
            subs[upto - 1].idle is Some,
            floor,
        );
    }
}

/// Every fragment a post pass appends is post-pass output.
proof fn lemma_post_frags_post(posts: Seq<PostPass>)
    ensures
        forall|i: int|
            0 <= i < post_frags(posts).len() ==> (#[trigger] post_frags(posts)[i]).stage
                == PassKind::Post,
    decreases posts.len(),
{
    if posts.len() > 0 {
        lemma_post_frags_post(posts.drop_last());
    }
}

/// Pipeline ordering, output half: in the assembled output the stage of a
/// fragment never decreases from one fragment to the next — post-pass output
/// never precedes standard-pass output.
pub proof fn lemma_pipeline_ordering(
    subs: Seq<SubApp>,
    passes: Seq<PrePass>,
    posts: Seq<PostPass>,
    floor: u16,
)
    ensures
        forall|i: int, j: int|
            0 <= i < j < pipeline_frags(subs, passes, posts, floor).len() ==> stage_rank(
                pipeline_frags(subs, passes, posts, floor)[i].stage,
            ) <= stage_rank(pipeline_frags(subs, passes, posts, floor)[j].stage),
{
    lemma_std_frags_upto_std(subs, passes, floor, subs.len() as int);
    lemma_post_frags_post(posts);
    let whole = pipeline_frags(subs, passes, posts, floor);
    let split = 1 + std_frags_upto(subs, passes, floor, subs.len() as int).len();
    assert forall|i: int, j: int| 0 <= i < j < whole.len() implies stage_rank(whole[i].stage)
        <= stage_rank(whole[j].stage) by {
        assert(i < split ==> whole[i].stage == PassKind::Std);
        assert(i >= split ==> whole[i].stage == PassKind::Post);
        assert(j < split ==> whole[j].stage == PassKind::Std);
        assert(j >= split ==> whole[j].stage == PassKind::Post);
    }
}

/// A task with a bound interrupt contributes its (interrupt, priority) pair
/// to the used-interrupt set.
proof fn lemma_irqs_of_contains(tasks: Seq<RticTask>, i: int)
    requires
        0 <= i < tasks.len(),
        tasks[i].args.interrupt_handler_name is Some,
    ensures
        irqs_of(tasks).contains(
            (tasks[i].args.interrupt_handler_name.unwrap(), tasks[i].args.priority),
        ),
    decreases tasks.len(),
{
    let pair = (tasks[i].args.interrupt_handler_name.unwrap(), tasks[i].args.priority);
    if i == tasks.len() - 1 {
        assert(tasks.last() == tasks[i]);
        let rest = irqs_of(tasks.drop_last());
        assert(irqs_of(tasks)[rest.len() as int] == pair);
    } else {
        lemma_irqs_of_contains(tasks.drop_last(), i);
        assert(tasks.drop_last()[i] == tasks[i]);
        let s = irqs_of(tasks.drop_last());
        let k = choose|k: int| 0 <= k < s.len() && s[k] == pair;
        assert(irqs_of(tasks)[k] == pair);
    }
}

/// A task synthesized by a pre-standard pass ends up in its core's final task
/// list.
proof fn lemma_final_tasks_contains(subs: Seq<SubApp>, passes: Seq<PrePass>, pidx: int, ti: int)
    requires
        0 <= pidx < passes.len(),
        0 <= ti < passes[pidx].tasks@.len(),
    ensures
        final_tasks(subs, passes, passes[pidx].core as int).contains(passes[pidx].tasks@[ti]),
    decreases passes.len(),
{
    let c = passes[pidx].core as int;
    let t = passes[pidx].tasks@[ti];
    if pidx == passes.len() - 1 {
        let prev = final_tasks(subs, passes.drop_last(), c);
        assert(passes.last() == passes[pidx]);
        assert(final_tasks(subs, passes, c)[prev.len() + ti] == t);
    } else {
        lemma_final_tasks_contains(subs, passes.drop_last(), pidx, ti);
        assert(passes.drop_last()[pidx] == passes[pidx]);
        let prev = final_tasks(subs, passes.drop_last(), c);
        let k = choose|k: int| 0 <= k < prev.len() && prev[k] == t;
        assert(final_tasks(subs, passes, c)[k] == t);
    }
}

/// Pipeline ordering, analysis half: what a pre-standard pass synthesizes is
/// visible to the standard pass — every interrupt bound by a synthesized task
/// appears, with its priority, in the used-interrupt set of its core that the
/// standard pass consumes.
pub proof fn lemma_pre_pass_visible(subs: Seq<SubApp>, passes: Seq<PrePass>, pidx: int, ti: int)
    requires
        0 <= pidx < passes.len(),
        0 <= ti < passes[pidx].tasks@.len(),
        passes[pidx].tasks@[ti].args.interrupt_handler_name is Some,
    ensures
        irqs_of(final_tasks(subs, passes, passes[pidx].core as int)).contains(
            (
                passes[pidx].tasks@[ti].args.interrupt_handler_name.unwrap(),
                passes[pidx].tasks@[ti].args.priority,
            ),
        ),
{
    lemma_final_tasks_contains(subs, passes, pidx, ti);
    let tasks = final_tasks(subs, passes, passes[pidx].core as int);
    let t = passes[pidx].tasks@[ti];
    let k = choose|k: int| 0 <= k < tasks.len() && tasks[k] == t;
    lemma_irqs_of_contains(tasks, k);
}

/// Priority floor: every interrupt the standard pass programs is set at a
/// priority at least the floor. Since a built application's idle task runs
/// exactly at the floor, the idle task resolves to the minimum priority in
/// the generated system.
pub proof fn lemma_priority_floor(subs: Seq<SubApp>, passes: Seq<PrePass>, floor: u16, upto: int)
    ensures
        forall|i: int|
            0 <= i < std_frags_upto(subs, passes, floor, upto).len() ==> ((
            #[trigger] std_frags_upto(subs, passes, floor, upto)[i]).item matches
                Fragment::InterruptInit { priority, .. } ==> priority >= floor),
    decreases upto,
{
    if upto > 0 {
        lemma_priority_floor(subs, passes, floor, upto - 1);
        let seg = sub_std_frags(
            subs[upto - 1].core,
            final_tasks(subs, passes, upto - 1),
            declared_elems(subs, upto - 1),
            subs[upto - 1].idle is Some,
            floor,
        );
        lemma_dispatch_frags_std(subs[upto - 1].core, final_tasks(subs, passes, upto - 1));
        assert forall|i: int| 0 <= i < seg.len() implies ((#[trigger] seg[i]).item matches
            Fragment::InterruptInit { priority, .. } ==> priority >= floor) by {
            let inits = irq_init_frags(
                subs[upto - 1].core,
                irqs_of(final_tasks(subs, passes, upto - 1)),
                floor,
            );
            let disp = dispatch_frags(subs[upto - 1].core, final_tasks(subs, passes, upto - 1));
            if 1 <= i < 1 + inits.len() {
                assert(seg[i] == inits[i - 1]);
            } else if 1 + inits.len() <= i < 1 + inits.len() + disp.len() {
                assert(seg[i] == disp[i - 1 - inits.len()]);
                lemma_dispatch_not_init(
                    subs[upto - 1].core,
                    final_tasks(subs, passes, upto - 1),
                    i - 1 - inits.len(),
                );
            }
        }
    }
}

/// A dispatch-wrapper fragment never programs an interrupt.
proof fn lemma_dispatch_not_init(core: u32, tasks: Seq<RticTask>, i: int)
    requires
        0 <= i < dispatch_frags(core, tasks).len(),
    ensures
        !(dispatch_frags(core, tasks)[i].item matches Fragment::InterruptInit { .. }),
    decreases tasks.len(),
{
    if tasks.len() > 0 {
        let rest = dispatch_frags(core, tasks.drop_last());
        if i < rest.len() {
            lemma_dispatch_not_init(core, tasks.drop_last(), i);
        }
    }
}

} // verus!
