//! The circuit recovery checker's decision logic.
//!
//! A background loop (run by the caller) periodically scans the providers
//! of each app type, collects those whose breaker currently denies
//! requests, probes each over the network, and — for every provider that
//! proved reachable — resets its breaker and persists a healthy row. The
//! scanning, classification and state changes are here; the caller does
//! the sleeping and the probing and hands the outcomes in.

use crate::breaker::CircuitBreaker;
use crate::config::CircuitBreakerConfig;
use crate::error::AppError;
use crate::provider::Provider;
use crate::router::{circuit_key, spec_breaker_at, ProviderRouter};
use crate::store::providers_for;
use vstd::prelude::*;
use vstd::string::StrSliceExecFns;
use vstd::string::StringExecFns;

verus! {

/// The run flag and the check interval of the background recovery loop.
/// Starting is idempotent: only the call that finds the flag down may spawn
/// the loop; stopping clears the flag for the loop to observe at its next
/// wake point.
#[derive(Debug)]
pub struct CircuitRecoveryChecker {
    pub running: bool,
    pub check_interval_secs: u64,
}

pub const DEFAULT_CHECK_INTERVAL_SECS: u64 = 60;

impl CircuitRecoveryChecker {
    /// Creates a checker that is not yet running, with the default
    /// one-minute interval.
    pub fn new() -> (c: CircuitRecoveryChecker)
        ensures
            !c.running,
            c.check_interval_secs == DEFAULT_CHECK_INTERVAL_SECS,
    {
        CircuitRecoveryChecker { running: false, check_interval_secs: DEFAULT_CHECK_INTERVAL_SECS }
    }

    /// Raises the run flag; answers whether this call raised it — only
    /// then may the caller spawn the loop, which keeps `start` idempotent.
    pub fn start(&mut self) -> (started: bool)
        ensures
            final(self).running,
            started == !old(self).running,
            final(self).check_interval_secs == old(self).check_interval_secs,
    {
        if self.running {
            false
        } else {
            self.running = true;
            true
        }
    }

    /// Clears the run flag; the loop observes this cooperatively at its
    /// next wake point.
    pub fn stop(&mut self)
        ensures
            !final(self).running,
            final(self).check_interval_secs == old(self).check_interval_secs,
    {
        self.running = false;
    }

    /// Whether the loop is meant to be running.
    pub fn is_running(&self) -> (r: bool)
        ensures
            r == self.running,
    {
        self.running
    }
}

/// Whether a probe's HTTP status proves the provider reachable: every
/// status below 500 does — success outright, and authentication,
/// rate-limit or other client errors still prove the network path and the
/// endpoint exist. A server error does not.
pub open spec fn spec_status_reachable(status: u16) -> bool {
    status < 500
}

/// Whether a probe outcome proves the provider reachable: a transport
/// failure (no status at all) never does.
pub open spec fn spec_probe_reachable(status: Option<u16>) -> bool {
    match status {
        Some(s) => spec_status_reachable(s),
        None => false,
    }
}

/// Classifies one probe outcome; `None` stands for a transport failure.
pub fn probe_reachable(status: Option<u16>) -> (r: bool)
    ensures
        r == spec_probe_reachable(status),
{
    match status {
        Some(s) => s < 500,
        None => false,
    }
}

/// `base` with every trailing `/` removed.
pub open spec fn trim_trailing_slashes(s: Seq<char>) -> Seq<char>
    decreases s.len(),
{
    if s.len() > 0 && s.last() == '/' {
        trim_trailing_slashes(s.drop_last())
    } else {
        s
    }
}

/// Removes every trailing `/` from `base`.
fn trimmed_base(base: &str) -> (t: String)
    ensures
        t@ == trim_trailing_slashes(base@),
{
    let n = base.unicode_len();
    let mut e = n;
    proof {
        assert(base@.take(n as int) =~= base@);
    }
    while e > 0 && base.get_char(e - 1) == '/'
        invariant
            e <= n,
            n == base@.len(),
            trim_trailing_slashes(base@) == trim_trailing_slashes(base@.take(e as int)),
        decreases e,
    {
        proof {
            assert(base@.take(e as int).drop_last() =~= base@.take(e - 1));
        }
        e = e - 1;
    }
    proof {
        assert(base@.take(e as int) =~= base@.subrange(0, e as int));
    }
    let t = base.substring_char(0, e);
    t.to_owned()
}

/// Where a recovery probe or connectivity test is sent: the provider's
/// messages endpoint and the credential to present.
#[derive(Debug)]
pub struct ProbeEndpoint {
    pub url: String,
    pub api_key: String,
}

/// The probe URL of a base address: the address without trailing slashes,
/// with the messages path behind it.
pub open spec fn probe_url(base: Seq<char>) -> Seq<char> {
    trim_trailing_slashes(base) + "/v1/messages"@
}

/// Reads where a provider can be probed from its connection descriptor,
/// failing with a configuration error when the base address or the
/// credential is missing.
pub fn probe_endpoint(provider: &Provider) -> (r: Result<ProbeEndpoint, AppError>)
    ensures
        match r {
            Ok(e) => provider.settings.base_url is Some && provider.settings.api_key is Some
                && e.url@ == probe_url(provider.settings.base_url->0@) && e.api_key@
                == provider.settings.api_key->0@,
            Err(e) => (provider.settings.base_url is None || provider.settings.api_key is None)
                && (e matches AppError::Config(m) && m@ == (if provider.settings.base_url
                is None {
                "No baseUrl found"@
            } else {
                "No apiKey found"@
            })),
        },
{
    let base = match &provider.settings.base_url {
        Some(b) => b,
        None => {
            return Err(AppError::Config(String::from_str("No baseUrl found")));
        },
    };
    let key = match &provider.settings.api_key {
        Some(k) => k,
        None => {
            return Err(AppError::Config(String::from_str("No apiKey found")));
        },
    };
    let url = trimmed_base(base.as_str()).concat("/v1/messages");
    Ok(ProbeEndpoint { url, api_key: key.clone() })
}

/// The registry map and the denied subset after walking every provider of
/// the list and asking its breaker — obtained, or created fresh under
/// `config` — to admit a request at `now_ms`. A breaker asked this way
/// makes its own Open-to-HalfOpen transition, exactly as the request path
/// would trigger it.
pub open spec fn spec_scan_denied(
    m: Map<Seq<char>, CircuitBreaker>,
    providers: Seq<Provider>,
    app_type: Seq<char>,
    config: CircuitBreakerConfig,
    now_ms: u64,
) -> (Map<Seq<char>, CircuitBreaker>, Seq<Provider>)
    decreases providers.len(),
{
    if providers.len() == 0 {
        (m, Seq::empty())
    } else {
        let p = providers[0];
        let key = circuit_key(app_type, p.id@);
        let step = spec_breaker_at(m, key, config).spec_allow(now_ms);
        let m1 = m.insert(key, step.0);
        let rest = spec_scan_denied(m1, providers.drop_first(), app_type, config, now_ms);
        if step.1 {
            rest
        } else {
            (rest.0, seq![p] + rest.1)
        }
    }
}

/// One scan of an app type for the recovery checker: with failover enabled,
/// walks all configured providers of `app_type` and answers those whose
/// breaker currently denies requests, performing each breaker's own timed
/// transition on the way; with failover disabled, touches nothing and
/// answers none.
#[verifier::loop_isolation(false)]
pub fn collect_denied_providers(
    router: &mut ProviderRouter,
    app_type: &str,
    now_ms: u64,
) -> (denied: Vec<Provider>)
    requires
        old(router).wf(),
    ensures
        final(router).wf(),
        final(router).db == old(router).db,
        ({
            let db = old(router).db;
            let config = db.spec_config();
            if !config.enabled {
                &&& final(router).breakers@ == old(router).breakers@
                &&& denied@ == Seq::<Provider>::empty()
            } else {
                let outcome = spec_scan_denied(
                    old(router).breakers_map(),
                    providers_for(db.providers@, app_type@, false),
                    app_type@,
                    config,
                    now_ms,
                );
                &&& final(router).breakers_map() == outcome.0
                &&& denied@ == outcome.1
            }
        }),
{
    let config = router.db.get_circuit_breaker_config();
    let mut denied: Vec<Provider> = Vec::new();
    if !config.enabled {
        return denied;
    }
    let providers = router.db.get_all_providers(app_type);
    let ghost m0 = router.breakers_map();
    let ghost pv = providers@;
    proof {
        assert(pv.skip(0) =~= pv);
    }
    let mut i: usize = 0;
    while i < providers.len()
        invariant
            i <= pv.len(),
            providers@ == pv,
            router.db == old(router).db,
            router.wf(),
            spec_scan_denied(m0, pv, app_type@, config, now_ms).0 == spec_scan_denied(
                router.breakers_map(),
                pv.skip(i as int),
                app_type@,
                config,
                now_ms,
            ).0,
            spec_scan_denied(m0, pv, app_type@, config, now_ms).1 == denied@ + spec_scan_denied(
                router.breakers_map(),
                pv.skip(i as int),
                app_type@,
                config,
                now_ms,
            ).1,
        decreases pv.len() - i,
    {
        let key = crate::router::compose_key(app_type, providers[i].id.as_str());
        proof {
            assert(pv.skip(i as int)[0] == pv[i as int]);
            assert(pv.skip(i as int).drop_first() =~= pv.skip(i + 1));
        }
        let ghost denied_pre = denied@;
        let allowed = router.allow_request_for(key.as_str(), now_ms);
        if !allowed {
            denied.push(providers[i].clone());
            proof {
                assert(denied@ =~= denied_pre + seq![pv[i as int]]);
                assert(denied_pre + (seq![pv[i as int]] + spec_scan_denied(
                    router.breakers_map(),
                    pv.skip(i + 1),
                    app_type@,
                    config,
                    now_ms,
                ).1) =~= denied@ + spec_scan_denied(
                    router.breakers_map(),
                    pv.skip(i + 1),
                    app_type@,
                    config,
                    now_ms,
                ).1);
            }
        }
        i = i + 1;
    }
    proof {
        assert(pv.skip(pv.len() as int) =~= Seq::<Provider>::empty());
        assert(denied@ + Seq::<Provider>::empty() =~= denied@);
    }
    denied
}

/// Applies one probe outcome for a denied provider: a reachable answer
/// resets the provider's breaker and persists a healthy row stamped
/// `now_ms`; an unreachable one leaves breaker and health untouched.
/// Answers whether the provider recovered.
pub fn apply_probe_outcome(
    router: &mut ProviderRouter,
    provider: &Provider,
    app_type: &str,
    status: Option<u16>,
    now_ms: u64,
) -> (recovered: bool)
    requires
        old(router).wf(),
    ensures
        final(router).wf(),
        recovered == spec_probe_reachable(status),
        !recovered ==> *final(router) == *old(router),
        recovered ==> ({
            let key = circuit_key(app_type@, provider.id@);
            &&& final(router).breakers_map() == if old(router).breakers_map().contains_key(key) {
                old(router).breakers_map().insert(
                    key,
                    old(router).breakers_map()[key].spec_reset(),
                )
            } else {
                old(router).breakers_map()
            }
            &&& final(router).db.spec_health(provider.id@, app_type@)
                == crate::store::Database::health_after(
                old(router).db.spec_health(provider.id@, app_type@),
                true,
                None,
                now_ms,
            )
            &&& forall|oid: Seq<char>, oapp: Seq<char>|
                !(oid == provider.id@ && oapp == app_type@)
                    ==> #[trigger] final(router).db.has_health(oid, oapp)
                    == old(router).db.has_health(oid, oapp)
                    && final(router).db.spec_health(oid, oapp)
                    == old(router).db.spec_health(oid, oapp)
            &&& final(router).db.providers@ == old(router).db.providers@
            &&& final(router).db.current@ == old(router).db.current@
            &&& final(router).db.config == old(router).db.config
        }),
{
    if !probe_reachable(status) {
        return false;
    }
    let key = crate::router::compose_key(app_type, provider.id.as_str());
    router.reset_circuit_breaker_pub(key.as_str());
    router.db.update_provider_health(provider.id.as_str(), app_type, true, None, now_ms);
    true
}

/// Whether this provider is the highest-priority failover candidate of its
/// app type — the one future selections will revert to once its breaker is
/// closed again.
pub fn is_top_priority(router: &ProviderRouter, provider_id: &str, app_type: &str) -> (r: bool)
    requires
        router.wf(),
    ensures
        ({
            let queue = providers_for(router.db.providers@, app_type@, true);
            r == (queue.len() > 0 && queue[0].id@ == provider_id@)
        }),
{
    let queue = router.db.get_failover_providers(app_type);
    if queue.len() == 0 {
        false
    } else {
        crate::text::str_eq(queue[0].id.as_str(), provider_id)
    }
}

} // verus!
