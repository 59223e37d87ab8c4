use vstd::prelude::*;

verus! {

// ---------------------------------------------------------------------------
// Identifier casing
//
// Task and resource names are rendered in several casings by the generated
// code. The snake-case split is delegated to heck; the uppercase rendering to
// the standard library. Both are pure functions of the input characters, so
// each result is given a name that the contracts below speak of.
// ---------------------------------------------------------------------------

/// The snake_case rendering of an identifier, as heck computes it.
pub uninterp spec fn snake_of(s: Seq<char>) -> Seq<char>;

/// The uppercase rendering of a string, as the standard library computes it.
pub uninterp spec fn upper_of(s: Seq<char>) -> Seq<char>;

/// Relies on heck::ToSnakeCase::to_snake_case for str: the result depends on
/// the characters of the input alone.
#[verifier::external_body]
fn to_snake_case_str(s: &str) -> (r: String)
    ensures
        r@ == snake_of(s@),
{
    heck::ToSnakeCase::to_snake_case(s)
}

/// Relies on str::to_uppercase: the result depends on the characters of the
/// input alone.
#[verifier::external_body]
fn to_uppercase_str(s: &str) -> (r: String)
    ensures
        r@ == upper_of(s@),
{
    s.to_uppercase()
}

// ---------------------------------------------------------------------------
// Task arguments
// ---------------------------------------------------------------------------

/// Options declared on an init task: the core it runs on.
#[derive(Debug)]
pub struct InitTaskArgs {
    pub core: u32,
}

impl InitTaskArgs {
    /// Resolve the declared options of an init task; a missing `core` option
    /// defaults to core 0.
    pub fn parse(core: Option<u32>) -> (r: Self)
        ensures
            r.core == (match core {
                Option::Some(c) => c,
                Option::None => 0u32,
            }),
    {
        InitTaskArgs {
            core: match core {
                Option::Some(c) => c,
                Option::None => 0,
            },
        }
    }
}

/// Options declared on a hardware or idle task: the interrupt it binds, its
/// priority, the shared resources it accesses, and the core it runs on.
#[derive(Debug)]
pub struct TaskArgs {
    /// Name of the bound interrupt; absent only for the idle task.
    pub interrupt_handler_name: Option<String>,
    /// Scheduling priority; 0 is the lowest.
    pub priority: u16,
    /// Identifiers of the shared resources the task accesses, in declaration order.
    pub shared_idents: Vec<String>,
    /// Index of the core the task runs on.
    pub core: u32,
}

impl TaskArgs {
    /// Resolve the declared options of a task. A missing priority defaults to
    /// `default_priority` (the backend's floor), a missing resource list to the
    /// empty list, and a missing core to core 0.
    pub fn parse(
        binds: Option<String>,
        priority: Option<u16>,
        shared: Option<Vec<String>>,
        core: Option<u32>,
        default_priority: u16,
    ) -> (r: Self)
        ensures
            r.interrupt_handler_name == binds,
            r.priority == (match priority {
                Option::Some(p) => p,
                Option::None => default_priority,
            }),
            r.shared_idents@ == (match shared {
                Option::Some(s) => s@,
                Option::None => Seq::<String>::empty(),
            }),
            r.core == (match core {
                Option::Some(c) => c,
                Option::None => 0u32,
            }),
    {
        let shared_idents = match shared {
            Option::Some(s) => s,
            Option::None => Vec::new(),
        };
        TaskArgs {
            interrupt_handler_name: binds,
            priority: match priority {
                Option::Some(p) => p,
                Option::None => default_priority,
            },
            shared_idents,
            core: match core {
                Option::Some(c) => c,
                Option::None => 0,
            },
        }
    }
}

// ---------------------------------------------------------------------------
// Tasks
// ---------------------------------------------------------------------------

/// Alias for a hardware task.
pub type HardwareTask = RticTask;

/// Alias for an idle task: an idle task has no bound interrupt and the floor priority.
pub type IdleTask = RticTask;

/// A task of the application: its resolved arguments and the name of the
/// structure that declares it.
#[derive(Debug)]
pub struct RticTask {
    pub args: TaskArgs,
    pub ident: String,
}

impl RticTask {
    /// The name of the structure that declares the task.
    pub fn name(&self) -> (r: &String)
        ensures
            r == self.ident,
    {
        &self.ident
    }

    /// The task's name rendered in SHOUTY_SNAKE_CASE, used for the generated
    /// static that holds the task's state.
    pub fn name_uppercase(&self) -> (r: String)
        ensures
            r@ == upper_of(snake_of(self.ident@)),
    {
        let snake = to_snake_case_str(self.ident.as_str());
        to_uppercase_str(snake.as_str())
    }

    /// The task's name rendered in snake_case.
    pub fn name_snakecase(&self) -> (r: String)
        ensures
            r@ == snake_of(self.ident@),
    {
        to_snake_case_str(self.ident.as_str())
    }
}

// ---------------------------------------------------------------------------
// Shared resources
// ---------------------------------------------------------------------------

/// One declared shared resource: its field name, the text of its type, and its
/// ceiling priority. The ceiling starts at the declared floor (0 by default)
/// and is finalized exactly once by the ceiling analysis.
#[derive(Debug)]
pub struct SharedElement {
    pub ident: String,
    pub ty: String,
    pub priority: u16,
}

/// Options declared on a shared-resources block: the core it belongs to.
#[derive(Debug)]
pub struct SharedResourcesArgs {
    pub core: u32,
}

impl SharedResourcesArgs {
    /// Resolve the declared options of a shared-resources block; a missing
    /// `core` option defaults to core 0.
    pub fn parse(core: Option<u32>) -> (r: Self)
        ensures
            r.core == (match core {
                Option::Some(c) => c,
                Option::None => 0u32,
            }),
    {
        SharedResourcesArgs {
            core: match core {
                Option::Some(c) => c,
                Option::None => 0,
            },
        }
    }
}

/// True when some resource in `resources` is named `name`.
pub open spec fn has_resource(resources: Seq<SharedElement>, name: Seq<char>) -> bool {
    exists|j: int| 0 <= j < resources.len() && resources[j].ident@ == name
}

/// The shared-resources declaration of one sub-application: its options, the
/// name of the structure that declares it, and the resources themselves.
#[derive(Debug)]
pub struct SharedResources {
    pub args: SharedResourcesArgs,
    pub ident: String,
    pub resources: Vec<SharedElement>,
}

impl SharedResources {
    /// The first resource named `field_name`, or `None` when no resource of
    /// that name is declared.
    pub fn get_field(&self, field_name: &String) -> (r: Option<&SharedElement>)
        ensures
            match r {
                Option::Some(e) => exists|j: int|
                    0 <= j < self.resources@.len() && *e == self.resources@[j]
                        && self.resources@[j].ident@ == field_name@ && (forall|k: int|
                        0 <= k < j ==> self.resources@[k].ident@ != field_name@),
                Option::None => !has_resource(self.resources@, field_name@),
            },
    {
        let n = self.resources.len();
        let mut i: usize = 0;
        while i < n
            invariant
                n == self.resources@.len(),
                0 <= i <= n,
                forall|k: int| 0 <= k < i ==> self.resources@[k].ident@ != field_name@,
            decreases n - i,
        {
            if self.resources[i].ident.eq(field_name) {
                return Option::Some(&self.resources[i]);
            }
            i += 1;
        }
        Option::None
    }

    /// The position of the first resource named `field_name`, or `None` when no
    /// resource of that name is declared. Mutation goes through the returned
    /// index, since a mutable borrow cannot be handed out inside an `Option`.
    pub fn get_field_mut(&mut self, field_name: &String) -> (r: Option<usize>)
        ensures
            *final(self) == *old(self),
            match r {
                Option::Some(j) => 0 <= j < old(self).resources@.len()
                    && old(self).resources@[j as int].ident@ == field_name@ && (forall|k: int|
                    0 <= k < j ==> old(self).resources@[k].ident@ != field_name@),
                Option::None => !has_resource(old(self).resources@, field_name@),
            },
    {
        let n = self.resources.len();
        let mut i: usize = 0;
        while i < n
            invariant
                *self == *old(self),
                n == self.resources@.len(),
                0 <= i <= n,
                forall|k: int| 0 <= k < i ==> self.resources@[k].ident@ != field_name@,
            decreases n - i,
        {
            if self.resources[i].ident.eq(field_name) {
                return Option::Some(i);
            }
            i += 1;
        }
        Option::None
    }

    /// The declaring structure's name rendered in SHOUTY_SNAKE_CASE, used for
    /// the generated static that holds the resources.
    pub fn name_uppercase(&self) -> (r: String)
        ensures
            r@ == upper_of(snake_of(self.ident@)),
    {
        let snake = to_snake_case_str(self.ident.as_str());
        to_uppercase_str(snake.as_str())
    }
}

// ---------------------------------------------------------------------------
// Application arguments
// ---------------------------------------------------------------------------

/// Top-level configuration of an application: the path to the peripheral
/// access crate, whether peripheral singletons are taken, and the number of
/// execution cores.
#[derive(Debug)]
pub struct AppArgs {
    /// Path to the target's peripheral access crate.
    pub device: String,
    /// Whether the device's peripheral singletons are handed to init.
    pub peripherals: bool,
    /// Number of execution cores; at least 1.
    pub cores: u32,
}

impl AppArgs {
    /// Resolve the top-level options. The `device` option is required; missing
    /// `peripherals` defaults to false and missing `cores` to 1.
    pub fn parse(device: Option<String>, peripherals: Option<bool>, cores: Option<u32>) -> (r:
        Result<Self, crate::error::Diagnostic>)
        ensures
            match r {
                Result::Ok(a) => {
                    &&& device matches Option::Some(d) && a.device == d
                    &&& a.peripherals == (match peripherals {
                        Option::Some(p) => p,
                        Option::None => false,
                    })
                    &&& a.cores == (match cores {
                        Option::Some(c) => c,
                        Option::None => 1u32,
                    })
                },
                Result::Err(d) => {
                    &&& device is None
                    &&& d.kind == crate::error::ErrorKind::MissingRequiredConfig
                },
            },
            r is Ok <==> device is Some,
    {
        let device = match device {
            Option::Some(d) => d,
            Option::None => {
                return Result::Err(
                    crate::error::Diagnostic::new(
                        crate::error::ErrorKind::MissingRequiredConfig,
                        String::new(),
                        string_from("device"),
                    ),
                );
            },
        };
        Result::Ok(
            AppArgs {
                device,
                peripherals: match peripherals {
                    Option::Some(p) => p,
                    Option::None => false,
                },
                cores: match cores {
                    Option::Some(c) => c,
                    Option::None => 1,
                },
            },
        )
    }
}

/// An owned copy of a string slice.
pub fn string_from(s: &str) -> (r: String)
    ensures
        r@ == s@,
{
    String::from_str(s)
}

// ---------------------------------------------------------------------------
// The application graph
// ---------------------------------------------------------------------------

/// The init task of one sub-application: runs once, before scheduling starts.
#[derive(Debug)]
pub struct InitTask {
    pub args: InitTaskArgs,
    pub ident: String,
}

/// The task/resource graph belonging to one execution core: exactly one init
/// task, at most one idle task, the hardware tasks, and at most one
/// shared-resources declaration.
#[derive(Debug)]
pub struct SubApp {
    pub core: u32,
    pub init: InitTask,
    pub idle: Option<IdleTask>,
    pub tasks: Vec<HardwareTask>,
    pub shared: Option<SharedResources>,
}

/// A whole application: its top-level configuration and one sub-application
/// per execution core.
#[derive(Debug)]
pub struct App {
    pub args: AppArgs,
    pub sub_apps: Vec<SubApp>,
}

} // verus!
