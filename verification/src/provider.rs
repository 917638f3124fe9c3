//! Provider data as the routing logic reads it.

use vstd::prelude::*;

verus! {

/// The part of a provider's connection descriptor that the routing and
/// probing logic reads: where to reach it and what credential to present.
/// Either part may be missing in a misconfigured provider.
#[derive(Debug)]
pub struct ProviderSettings {
    pub base_url: Option<String>,
    pub api_key: Option<String>,
}

/// One configured upstream provider. `sort_index` orders failover
/// priority, ascending meaning higher priority. The router holds transient
/// clones and never mutates a provider.
#[derive(Debug)]
pub struct Provider {
    pub id: String,
    pub name: String,
    pub app_type: String,
    pub sort_index: i64,
    pub settings: ProviderSettings,
}

/// Persisted failure bookkeeping for one provider, independent of the
/// in-memory breaker state.
#[derive(Debug)]
pub struct ProviderHealth {
    pub consecutive_failures: u32,
    pub last_error: Option<String>,
    pub last_checked_ms: u64,
}

impl Clone for ProviderSettings {
    fn clone(&self) -> (r: Self)
        ensures
            r == *self,
    {
        ProviderSettings { base_url: self.base_url.clone(), api_key: self.api_key.clone() }
    }
}

impl Clone for Provider {
    fn clone(&self) -> (r: Self)
        ensures
            r == *self,
    {
        Provider {
            id: self.id.clone(),
            name: self.name.clone(),
            app_type: self.app_type.clone(),
            sort_index: self.sort_index,
            settings: self.settings.clone(),
        }
    }
}

impl Clone for ProviderHealth {
    fn clone(&self) -> (r: Self)
        ensures
            r == *self,
    {
        ProviderHealth {
            consecutive_failures: self.consecutive_failures,
            last_error: self.last_error.clone(),
            last_checked_ms: self.last_checked_ms,
        }
    }
}

impl ProviderHealth {
    /// The health assumed of a provider with no recorded outcome yet.
    pub fn unrecorded() -> (h: ProviderHealth)
        ensures
            h.consecutive_failures == 0,
            h.last_error is None,
            h.last_checked_ms == 0,
    {
        ProviderHealth { consecutive_failures: 0, last_error: None, last_checked_ms: 0 }
    }
}

} // verus!
