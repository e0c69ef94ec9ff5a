//! Product feature flags: identifiers, persisted snapshots and a live registry.
use vstd::prelude::*;

verus! {

/// Known product feature flags.
#[derive(Clone, Copy, Debug, PartialEq, Eq, Hash, Structural)]
pub enum Feature {
    /// C2PA / Content Credentials signing and related tooling.
    ContentCredentials,
    /// Offline analysis ops (Analyze menu and `analyze.*` commands).
    AnalysisOps,
}

/// Shipping default of every flag: off.
pub open spec fn default_enabled_spec(feature: Feature) -> bool {
    false
}

impl Feature {
    /// Stable string id used in settings JSON and diagnostics.
    pub fn id(self) -> (out: &'static str)
        ensures
            self is ContentCredentials ==> out@ == "content_credentials"@,
            self is AnalysisOps ==> out@ == "analysis_ops"@,
    {
        match self {
            Feature::ContentCredentials => "content_credentials",
            Feature::AnalysisOps => "analysis_ops",
        }
    }

    /// Shipping default for this flag (always off today).
    pub fn default_enabled(self) -> (out: bool)
        ensures
            out == default_enabled_spec(self),
    {
        false
    }

    /// All registered features in a stable order.
    pub fn all() -> (out: &'static [Feature])
        ensures
            out@ == seq![Feature::ContentCredentials, Feature::AnalysisOps],
    {
        let out: &'static [Feature] = &[Feature::ContentCredentials, Feature::AnalysisOps];
        assert(out@ =~= seq![Feature::ContentCredentials, Feature::AnalysisOps]);
        out
    }
}

/// Persisted snapshot of experimental feature flags.
#[derive(Clone, Copy, Debug, PartialEq, Eq, Structural)]
pub struct FeatureFlags {
    /// Enable Content Credentials / C2PA tooling when implemented.
    pub content_credentials: bool,
    /// Enable the Analyze menu and `analyze.*` commands.
    pub analysis_ops: bool,
}

impl FeatureFlags {
    /// Whether `feature` is on in this snapshot.
    pub open spec fn enabled(self, feature: Feature) -> bool {
        match feature {
            Feature::ContentCredentials => self.content_credentials,
            Feature::AnalysisOps => self.analysis_ops,
        }
    }

    /// Whether `feature` is enabled in this snapshot.
    pub fn is_enabled(&self, feature: Feature) -> (out: bool)
        ensures
            out == self.enabled(feature),
    {
        match feature {
            Feature::ContentCredentials => self.content_credentials,
            Feature::AnalysisOps => self.analysis_ops,
        }
    }

    /// Set whether `feature` is enabled; the other flags are kept.
    pub fn set(&mut self, feature: Feature, enabled: bool)
        ensures
            final(self).enabled(feature) == enabled,
            forall|other: Feature| other != feature ==> #[trigger] final(self).enabled(other) == old(self).enabled(other),
    {
        match feature {
            Feature::ContentCredentials => self.content_credentials = enabled,
            Feature::AnalysisOps => self.analysis_ops = enabled,
        }
    }
}

impl Default for FeatureFlags {
    fn default() -> (out: Self)
        ensures
            forall|f: Feature| #[trigger] out.enabled(f) == default_enabled_spec(f),
    {
        FeatureFlags {
            content_credentials: Feature::ContentCredentials.default_enabled(),
            analysis_ops: Feature::AnalysisOps.default_enabled(),
        }
    }
}

/// Live feature-flag state consulted by hosts when gating UI and commands.
#[derive(Clone, Copy, Debug, PartialEq, Eq, Structural)]
pub struct FeatureRegistry {
    flags: FeatureFlags,
}

impl View for FeatureRegistry {
    type V = FeatureFlags;

    closed spec fn view(&self) -> FeatureFlags {
        self.flags
    }
}

impl Default for FeatureRegistry {
    fn default() -> (out: Self)
        ensures
            forall|f: Feature| #[trigger] out@.enabled(f) == default_enabled_spec(f),
    {
        FeatureRegistry { flags: FeatureFlags::default() }
    }
}

impl FeatureRegistry {
    /// Create a registry from a persisted flag snapshot.
    pub fn from_flags(flags: FeatureFlags) -> (out: Self)
        ensures
            out@ == flags,
    {
        FeatureRegistry { flags }
    }

    /// Whether `feature` is currently enabled.
    pub fn is_enabled(&self, feature: Feature) -> (out: bool)
        ensures
            out == self@.enabled(feature),
    {
        self.flags.is_enabled(feature)
    }

    /// Enable or disable `feature`; the other flags are kept.
    pub fn set(&mut self, feature: Feature, enabled: bool)
        ensures
            final(self)@.enabled(feature) == enabled,
            forall|other: Feature| other != feature ==> #[trigger] final(self)@.enabled(other) == old(self)@.enabled(other),
    {
        self.flags.set(feature, enabled);
    }

    /// Borrow the current flag snapshot.
    pub fn flags(&self) -> (out: &FeatureFlags)
        ensures
            *out == self@,
    {
        &self.flags
    }

    /// Replace the entire flag snapshot.
    pub fn set_flags(&mut self, flags: FeatureFlags)
        ensures
            final(self)@ == flags,
    {
        self.flags = flags;
    }
}

/// A snapshot is determined by the flags it enables: two snapshots that
/// agree on every feature are equal.
pub proof fn lemma_flags_extensional(a: FeatureFlags, b: FeatureFlags)
    requires
        forall|f: Feature| #[trigger] a.enabled(f) == b.enabled(f),
    ensures
        a == b,
{
    assert(a.enabled(Feature::ContentCredentials) == b.enabled(Feature::ContentCredentials));
    assert(a.enabled(Feature::AnalysisOps) == b.enabled(Feature::AnalysisOps));
}

/// Setting a flag to the value it already has changes nothing, and setting
/// it twice keeps only the last value.
pub proof fn lemma_set_then_set(a: FeatureFlags, b: FeatureFlags, c: FeatureFlags, feature: Feature, first: bool, second: bool)
    requires
        b.enabled(feature) == first,
        forall|o: Feature| o != feature ==> #[trigger] b.enabled(o) == a.enabled(o),
        c.enabled(feature) == second,
        forall|o: Feature| o != feature ==> #[trigger] c.enabled(o) == b.enabled(o),
    ensures
        forall|o: Feature| o != feature ==> #[trigger] c.enabled(o) == a.enabled(o),
        second == a.enabled(feature) ==> c == a,
{
    if second == a.enabled(feature) {
        assert forall|f: Feature| #[trigger] c.enabled(f) == a.enabled(f) by {
            if f != feature {
                assert(c.enabled(f) == b.enabled(f));
            }
        }
        lemma_flags_extensional(c, a);
    }
}

} // verus!
