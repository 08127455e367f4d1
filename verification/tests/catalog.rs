use kv_router::custom_catalog::{first_policy, next_step, register, CatalogPolicy, CatalogStep};
use kv_router::selection::{WorkerSelectionPolicyRegistry, WorkerSelectionPolicyRegistryError};

#[test]
fn registers_both_policies() {
    let mut registry = WorkerSelectionPolicyRegistry::default();
    register(&mut registry).unwrap();

    assert!(matches!(
        CatalogPolicy::SglRouterCacheAware.register(&mut registry),
        Err(WorkerSelectionPolicyRegistryError::Duplicate { name }) if name == "sgl-router-cache-aware"
    ));
    assert!(matches!(
        CatalogPolicy::StickyUntilSaturated.register(&mut registry),
        Err(WorkerSelectionPolicyRegistryError::Duplicate { name }) if name == "sticky-until-saturated"
    ));
}

#[test]
fn other_policies_stay_registered() {
    let mut registry = WorkerSelectionPolicyRegistry::default();
    registry.register_policy("default").unwrap();
    register(&mut registry).unwrap();
    assert!(registry.contains("default"));
    assert!(registry.contains("sgl-router-cache-aware"));
    assert!(registry.contains("sticky-until-saturated"));
    assert!(!registry.contains("sticky"));
}

#[test]
fn registering_the_catalog_twice_is_refused_for_its_first_policy() {
    let mut registry = WorkerSelectionPolicyRegistry::default();
    register(&mut registry).unwrap();
    assert!(matches!(
        register(&mut registry),
        Err(WorkerSelectionPolicyRegistryError::Duplicate { name }) if name == "sgl-router-cache-aware"
    ));
}

#[test]
fn a_taken_first_name_leaves_the_registry_as_it_was() {
    let mut registry = WorkerSelectionPolicyRegistry::default();
    registry.register_policy("sgl-router-cache-aware").unwrap();
    assert!(register(&mut registry).is_err());
    assert!(!registry.contains("sticky-until-saturated"));
}

#[test]
fn a_taken_second_name_leaves_the_first_policy_registered() {
    let mut registry = WorkerSelectionPolicyRegistry::default();
    registry.register_policy("sticky-until-saturated").unwrap();
    assert!(matches!(
        register(&mut registry),
        Err(WorkerSelectionPolicyRegistryError::Duplicate { name }) if name == "sticky-until-saturated"
    ));
    assert!(registry.contains("sgl-router-cache-aware"));
}

#[test]
fn steps_follow_the_catalog_and_stop_at_an_error() {
    assert_eq!(first_policy(), CatalogPolicy::SglRouterCacheAware);
    let ok: Result<(), u8> = Ok(());
    assert!(matches!(
        next_step(CatalogPolicy::SglRouterCacheAware, ok),
        CatalogStep::Register(CatalogPolicy::StickyUntilSaturated)
    ));
    assert!(matches!(
        next_step(CatalogPolicy::StickyUntilSaturated, ok),
        CatalogStep::Finished(Ok(()))
    ));
    assert!(matches!(
        next_step(CatalogPolicy::SglRouterCacheAware, Err(7u8)),
        CatalogStep::Finished(Err(7))
    ));
}
