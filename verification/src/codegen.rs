use vstd::prelude::*;

verus! {

/// The source text of the trait a hardware task implements: a one-time local
/// state constructor and an execution routine run once per interrupt trigger.
pub open spec fn hw_task_trait_text() -> Seq<char> {
    "/// Trait for a hardware task\npub trait RticTask {\n    /// Task local variables initialization routine\n    fn init() -> Self;\n    /// Function to be bound to a HW Interrupt\n    fn exec(&mut self);\n}\n"@
}

/// The source text of the trait an idle task implements: its execution routine
/// never returns.
pub open spec fn idle_task_trait_text() -> Seq<char> {
    "/// Trait for an idle task\npub trait RticIdleTask {\n    /// Task local variables initialization routine\n    fn init() -> Self;\n    /// Function to be executing when no other task is running\n    fn exec(&mut self) -> !;\n}\n"@
}

/// The source text of the resource-proxy trait: a scoped, priority-gated lock.
pub open spec fn mutex_trait_text() -> Seq<char> {
    "pub trait RticMutex {\n    type ResourceType;\n    fn lock(&mut self, f: impl FnOnce(&mut Self::ResourceType));\n}\n"@
}

/// The module wrapping the three trait declarations.
pub open spec fn rtic_traits_mod_text() -> Seq<char> {
    "/// Module defining rtic traits\nmod rtic_traits {\n"@ + hw_task_trait_text()
        + idle_task_trait_text() + mutex_trait_text() + "}\n"@
}

/// The declaration of the hardware-task trait.
fn hw_task_trait() -> (r: String)
    ensures
        r@ == hw_task_trait_text(),
{
    crate::ast::string_from(
        "/// Trait for a hardware task\npub trait RticTask {\n    /// Task local variables initialization routine\n    fn init() -> Self;\n    /// Function to be bound to a HW Interrupt\n    fn exec(&mut self);\n}\n",
    )
}

/// The declaration of the idle-task trait.
fn idle_task_trait() -> (r: String)
    ensures
        r@ == idle_task_trait_text(),
{
    crate::ast::string_from(
        "/// Trait for an idle task\npub trait RticIdleTask {\n    /// Task local variables initialization routine\n    fn init() -> Self;\n    /// Function to be executing when no other task is running\n    fn exec(&mut self) -> !;\n}\n",
    )
}

/// The declaration of the resource-proxy trait.
fn mutex_trait() -> (r: String)
    ensures
        r@ == mutex_trait_text(),
{
    crate::ast::string_from(
        "pub trait RticMutex {\n    type ResourceType;\n    fn lock(&mut self, f: impl FnOnce(&mut Self::ResourceType));\n}\n",
    )
}

/// The module of trait declarations that every generated program carries: the
/// hardware-task, idle-task and resource-proxy contracts.
pub fn get_rtic_traits_mod() -> (r: String)
    ensures
        r@ == rtic_traits_mod_text(),
{
    let mut s = crate::ast::string_from("/// Module defining rtic traits\nmod rtic_traits {\n");
    let hw = hw_task_trait();
    s.append(hw.as_str());
    let idle = idle_task_trait();
    s.append(idle.as_str());
    let mutex = mutex_trait();
    s.append(mutex.as_str());
    s.append("}\n");
    s
}

} // verus!
