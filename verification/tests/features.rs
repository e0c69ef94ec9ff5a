use field_assist::features::{Feature, FeatureFlags, FeatureRegistry};

#[test]
fn defaults_are_off() {
    let flags = FeatureFlags::default();
    for feature in Feature::all() {
        assert!(!flags.is_enabled(*feature));
        assert!(!feature.default_enabled());
    }
}

#[test]
fn set_and_is_enabled() {
    let mut flags = FeatureFlags::default();
    flags.set(Feature::AnalysisOps, true);
    assert!(flags.is_enabled(Feature::AnalysisOps));
    assert!(!flags.is_enabled(Feature::ContentCredentials));
}

#[test]
fn ids_are_stable() {
    assert_eq!(Feature::ContentCredentials.id(), "content_credentials");
    assert_eq!(Feature::AnalysisOps.id(), "analysis_ops");
}

#[test]
fn registry_mirrors_flags() {
    let mut registry = FeatureRegistry::default();
    assert!(!registry.is_enabled(Feature::ContentCredentials));
    registry.set(Feature::ContentCredentials, true);
    assert!(registry.is_enabled(Feature::ContentCredentials));
    assert!(registry.flags().content_credentials);

    let mut flags = FeatureFlags::default();
    flags.analysis_ops = true;
    registry.set_flags(flags.clone());
    assert_eq!(registry.flags(), &flags);
    assert!(registry.is_enabled(Feature::AnalysisOps));
}

#[test]
fn set_twice_keeps_last_and_others() {
    let mut flags = FeatureFlags::default();
    flags.set(Feature::ContentCredentials, true);
    flags.set(Feature::ContentCredentials, false);
    assert_eq!(flags, FeatureFlags::default());
    let registry = FeatureRegistry::from_flags(FeatureFlags { content_credentials: true, analysis_ops: false });
    assert!(registry.is_enabled(Feature::ContentCredentials));
    assert!(!registry.is_enabled(Feature::AnalysisOps));
    assert_eq!(Feature::all().len(), 2);
}
