//! A catalog of worker-selection policies, selectable alongside the built-in
//! ones.

use vstd::prelude::*;
use crate::selection::{WorkerSelectionPolicyRegistry, WorkerSelectionPolicyRegistryError};

verus! {

/// The policies of the catalog.
#[derive(Clone, Copy, Debug, PartialEq, Eq, Structural)]
pub enum CatalogPolicy {
    SglRouterCacheAware,
    StickyUntilSaturated,
}

impl CatalogPolicy {
    /// The name a policy is selected by.
    pub open spec fn spec_name(self) -> Seq<char> {
        match self {
            CatalogPolicy::SglRouterCacheAware => "sgl-router-cache-aware"@,
            CatalogPolicy::StickyUntilSaturated => "sticky-until-saturated"@,
        }
    }

    pub fn name(self) -> (name: &'static str)
        ensures
            name@ == self.spec_name(),
    {
        match self {
            CatalogPolicy::SglRouterCacheAware => "sgl-router-cache-aware",
            CatalogPolicy::StickyUntilSaturated => "sticky-until-saturated",
        }
    }

    /// Registers this policy.
    pub fn register(self, registry: &mut WorkerSelectionPolicyRegistry) -> (result: Result<
        (),
        WorkerSelectionPolicyRegistryError,
    >)
        ensures
            match result {
                Ok(()) => {
                    &&& !old(registry)@.contains(self.spec_name())
                    &&& final(registry)@ == old(registry)@.insert(self.spec_name())
                },
                Err(WorkerSelectionPolicyRegistryError::Duplicate { name }) => {
                    &&& name@ == self.spec_name()
                    &&& old(registry)@.contains(self.spec_name())
                    &&& final(registry)@ == old(registry)@
                },
            },
    {
        registry.register_policy(self.name())
    }
}

/// The names of the two policies differ.
pub proof fn lemma_policy_names_differ()
    ensures
        CatalogPolicy::SglRouterCacheAware.spec_name()
            != CatalogPolicy::StickyUntilSaturated.spec_name(),
{
    reveal_strlit("sgl-router-cache-aware");
    reveal_strlit("sticky-until-saturated");
    assert("sgl-router-cache-aware"@[1] == 'g');
    assert("sticky-until-saturated"@[1] == 't');
}

/// What to do next while registering the catalog.
#[derive(Debug)]
pub enum CatalogStep<E> {
    /// Register this policy.
    Register(CatalogPolicy),
    /// Stop with this result.
    Finished(Result<(), E>),
}

/// The policy the catalog starts with.
pub open spec fn spec_first_policy() -> CatalogPolicy {
    CatalogPolicy::SglRouterCacheAware
}

/// What follows registering a policy: an error ends it, and so does success
/// with the last policy.
pub open spec fn spec_next_step<E>(
    policy: CatalogPolicy,
    outcome: Result<(), E>,
) -> CatalogStep<E> {
    match outcome {
        Err(error) => CatalogStep::Finished(Err(error)),
        Ok(()) => match policy {
            CatalogPolicy::SglRouterCacheAware => CatalogStep::Register(
                CatalogPolicy::StickyUntilSaturated,
            ),
            CatalogPolicy::StickyUntilSaturated => CatalogStep::Finished(Ok(())),
        },
    }
}

pub fn first_policy() -> (policy: CatalogPolicy)
    ensures
        policy == spec_first_policy(),
{
    CatalogPolicy::SglRouterCacheAware
}

pub fn next_step<E>(policy: CatalogPolicy, outcome: Result<(), E>) -> (step: CatalogStep<E>)
    ensures
        step == spec_next_step(policy, outcome),
{
    match outcome {
        Err(error) => CatalogStep::Finished(Err(error)),
        Ok(()) => match policy {
            CatalogPolicy::SglRouterCacheAware => CatalogStep::Register(
                CatalogPolicy::StickyUntilSaturated,
            ),
            CatalogPolicy::StickyUntilSaturated => CatalogStep::Finished(Ok(())),
        },
    }
}

/// The name at which registering the catalog stops, where it does.
pub open spec fn taken_name(names: Set<Seq<char>>) -> Option<Seq<char>> {
    if names.contains(CatalogPolicy::SglRouterCacheAware.spec_name()) {
        Some(CatalogPolicy::SglRouterCacheAware.spec_name())
    } else if names.contains(CatalogPolicy::StickyUntilSaturated.spec_name()) {
        Some(CatalogPolicy::StickyUntilSaturated.spec_name())
    } else {
        None
    }
}

/// The names that are registered after the catalog: those before, and of the
/// catalog those up to the first that is taken.
pub open spec fn names_after(names: Set<Seq<char>>) -> Set<Seq<char>> {
    let first = CatalogPolicy::SglRouterCacheAware.spec_name();
    let second = CatalogPolicy::StickyUntilSaturated.spec_name();
    if names.contains(first) {
        names
    } else {
        names.insert(first).insert(second)
    }
}

/// Registers every policy of the catalog, and stops at the first whose name
/// is taken. What was registered before that stays registered.
pub fn register(registry: &mut WorkerSelectionPolicyRegistry) -> (result: Result<
    (),
    WorkerSelectionPolicyRegistryError,
>)
    ensures
        match result {
            Ok(()) => taken_name(old(registry)@) is None,
            Err(WorkerSelectionPolicyRegistryError::Duplicate { name }) => taken_name(
                old(registry)@,
            ) == Some(name@),
        },
        final(registry)@ == names_after(old(registry)@),
{
    proof {
        lemma_policy_names_differ();
    }
    let first = first_policy();
    match next_step(first, first.register(registry)) {
        CatalogStep::Register(second) => second.register(registry),
        CatalogStep::Finished(result) => result,
    }
}

/// Registering the catalog unregisters nothing and registers nothing but its
/// two policies.
pub proof fn lemma_register_adds_only_the_catalog(names: Set<Seq<char>>, name: Seq<char>)
    ensures
        names.contains(name) ==> names_after(names).contains(name),
        names_after(names).contains(name) ==> names.contains(name) || name
            == CatalogPolicy::SglRouterCacheAware.spec_name() || name
            == CatalogPolicy::StickyUntilSaturated.spec_name(),
{
}

/// Where registering the catalog succeeds, both policies are selectable, and
/// registering it again is refused for the first of them and changes nothing.
pub proof fn lemma_catalog_registers_once(names: Set<Seq<char>>)
    requires
        taken_name(names) is None,
    ensures
        names_after(names).contains(CatalogPolicy::SglRouterCacheAware.spec_name()),
        names_after(names).contains(CatalogPolicy::StickyUntilSaturated.spec_name()),
        taken_name(names_after(names)) == Some(CatalogPolicy::SglRouterCacheAware.spec_name()),
        names_after(names_after(names)) == names_after(names),
{
}

/// Registering starts with one policy and, where that succeeds, goes on to the
/// other, after which it is done. An error ends it at once and is handed out.
pub proof fn lemma_catalog_steps<E>(policy: CatalogPolicy, error: E)
    ensures
        spec_next_step(policy, Err::<(), E>(error)) == CatalogStep::Finished(Err::<(), E>(error)),
        spec_next_step(spec_first_policy(), Ok::<(), E>(())) matches CatalogStep::Register(second)
            && second != spec_first_policy() && spec_next_step(second, Ok::<(), E>(()))
            == CatalogStep::Finished(Ok::<(), E>(())),
        spec_first_policy() == CatalogPolicy::SglRouterCacheAware,
{
}

/// Registering the catalog is refused just where one of its two names is
/// taken, for the first of them where both are. It registers neither name
/// where the first is taken, and else leaves both registered.
pub proof fn lemma_catalog_by_name(names: Set<Seq<char>>, name: Seq<char>)
    ensures
        taken_name(names) == Some("sgl-router-cache-aware"@) <==> names.contains(
            "sgl-router-cache-aware"@,
        ),
        taken_name(names) == Some("sticky-until-saturated"@) <==> names.contains(
            "sticky-until-saturated"@,
        ) && !names.contains("sgl-router-cache-aware"@),
        taken_name(names) is None <==> !names.contains("sgl-router-cache-aware"@)
            && !names.contains("sticky-until-saturated"@),
        names.contains("sgl-router-cache-aware"@) ==> (names_after(names).contains(name)
            <==> names.contains(name)),
        !names.contains("sgl-router-cache-aware"@) ==> (names_after(names).contains(name)
            <==> names.contains(name) || name == "sgl-router-cache-aware"@ || name
            == "sticky-until-saturated"@),
        CatalogPolicy::SglRouterCacheAware.spec_name() == "sgl-router-cache-aware"@,
        CatalogPolicy::StickyUntilSaturated.spec_name() == "sticky-until-saturated"@,
{
    lemma_policy_names_differ();
}

} // verus!
