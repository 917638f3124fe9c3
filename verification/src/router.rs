//! The provider router: a registry of circuit breakers keyed by
//! `app_type:provider_id`, priority-ordered provider selection, and
//! outcome recording with persisted health and auto-disable.

use crate::breaker::{CircuitBreaker, CircuitBreakerStats};
use crate::config::CircuitBreakerConfig;
use crate::error::AppError;
use crate::provider::Provider;
use crate::store::{providers_for, Database, ProviderRecord};
use crate::text::{spec_join, str_eq};
use vstd::pervasive::VecAdditionalExecFns;
use vstd::prelude::*;
use vstd::string::StringExecFns;

verus! {

/// One registry slot: a breaker under its `app_type:provider_id` key.
#[derive(Debug)]
pub struct BreakerEntry {
    pub key: String,
    pub breaker: CircuitBreaker,
}

/// No two registry slots share a key.
pub open spec fn keys_unique(s: Seq<BreakerEntry>) -> bool {
    forall|i: int, j: int|
        0 <= i < j < s.len() ==> (#[trigger] s[i]).key@ != (#[trigger] s[j]).key@
}

/// The registry read as a map from key to breaker.
pub open spec fn registry_map(s: Seq<BreakerEntry>) -> Map<Seq<char>, CircuitBreaker>
    decreases s.len(),
{
    if s.len() == 0 {
        Map::empty()
    } else {
        registry_map(s.drop_last()).insert(s.last().key@, s.last().breaker)
    }
}

/// A key is in the registry map exactly when some slot holds it.
proof fn lemma_registry_contains(s: Seq<BreakerEntry>, key: Seq<char>)
    ensures
        registry_map(s).contains_key(key) <==> exists|i: int|
            0 <= i < s.len() && (#[trigger] s[i]).key@ == key,
    decreases s.len(),
{
    if s.len() > 0 {
        lemma_registry_contains(s.drop_last(), key);
        if registry_map(s).contains_key(key) && s.last().key@ != key {
            let w = choose|i: int| 0 <= i < s.drop_last().len() && (#[trigger] s.drop_last()[i]).key@ == key;
            assert(s[w].key@ == key);
        }
        if exists|i: int| 0 <= i < s.len() && (#[trigger] s[i]).key@ == key {
            let w = choose|i: int| 0 <= i < s.len() && (#[trigger] s[i]).key@ == key;
            if w < s.len() - 1 {
                assert(s.drop_last()[w].key@ == key);
            }
        }
    }
}

/// With unique keys, the slot holding a key is the one the registry map
/// answers with.
proof fn lemma_registry_witness(s: Seq<BreakerEntry>, i: int)
    requires
        keys_unique(s),
        0 <= i < s.len(),
    ensures
        registry_map(s).contains_key(s[i].key@),
        registry_map(s)[s[i].key@] == s[i].breaker,
    decreases s.len(),
{
    if i == s.len() - 1 {
    } else {
        lemma_registry_witness(s.drop_last(), i);
        assert(s.drop_last()[i] == s[i]);
    }
}

/// Replacing the slot at `i` by a slot under the same key turns the
/// registry map into the map with that key re-bound.
proof fn lemma_registry_update(s0: Seq<BreakerEntry>, s1: Seq<BreakerEntry>, i: int)
    requires
        keys_unique(s0),
        0 <= i < s0.len(),
        s1 == s0.update(i, s1[i]),
        s1[i].key@ == s0[i].key@,
    ensures
        keys_unique(s1),
        registry_map(s1) == registry_map(s0).insert(s0[i].key@, s1[i].breaker),
    decreases s0.len(),
{
    assert forall|a: int, b: int|
        0 <= a < b < s1.len() implies (#[trigger] s1[a]).key@ != (#[trigger] s1[b]).key@ by {
        assert(s1[a].key@ == s0[a].key@ && s1[b].key@ == s0[b].key@);
    }
    if i == s0.len() - 1 {
        assert(s1.drop_last() =~= s0.drop_last());
        assert(registry_map(s1) =~= registry_map(s0).insert(s0[i].key@, s1[i].breaker));
    } else {
        assert(s1.drop_last() =~= s0.drop_last().update(i, s1[i]));
        assert(s1.drop_last()[i] == s1[i]);
        lemma_registry_update(s0.drop_last(), s1.drop_last(), i);
        assert(s1.last() == s0.last());
        assert(s0.last().key@ != s0[i].key@);
        assert(registry_map(s1) =~= registry_map(s0).insert(s0[i].key@, s1[i].breaker));
    }
}

/// The key under which one provider's breaker is registered.
pub open spec fn circuit_key(app_type: Seq<char>, provider_id: Seq<char>) -> Seq<char> {
    app_type + seq![':'] + provider_id
}

/// Composes the registry key `app_type:provider_id`.
pub fn compose_key(app_type: &str, provider_id: &str) -> (k: String)
    ensures
        k@ == circuit_key(app_type@, provider_id@),
{
    let mut k = app_type.to_owned();
    k.append(":");
    k.append(provider_id);
    proof {
        reveal_strlit(":");
        assert(":"@ =~= seq![':']);
        assert(k@ =~= circuit_key(app_type@, provider_id@));
    }
    k
}

/// The registry map after a get-or-create of `key` under configuration
/// `config`: unchanged when the key is known, else grown by a fresh breaker.
pub open spec fn spec_get_or_create(
    m: Map<Seq<char>, CircuitBreaker>,
    key: Seq<char>,
    config: CircuitBreakerConfig,
) -> Map<Seq<char>, CircuitBreaker> {
    if m.contains_key(key) {
        m
    } else {
        m.insert(key, CircuitBreaker::spec_new(config))
    }
}

/// The breaker a get-or-create of `key` answers with.
pub open spec fn spec_breaker_at(
    m: Map<Seq<char>, CircuitBreaker>,
    key: Seq<char>,
    config: CircuitBreakerConfig,
) -> CircuitBreaker {
    if m.contains_key(key) {
        m[key]
    } else {
        CircuitBreaker::spec_new(config)
    }
}

/// Law: once a breaker exists under a key, a later get-or-create — under
/// whatever configuration is then in force — leaves the registry unchanged
/// and answers with that same breaker, so at most one breaker ever
/// materializes per key.
pub proof fn lemma_get_or_create_single_instance(
    m: Map<Seq<char>, CircuitBreaker>,
    key: Seq<char>,
    config_then: CircuitBreakerConfig,
    config_later: CircuitBreakerConfig,
)
    ensures
        ({
            let m1 = spec_get_or_create(m, key, config_then);
            &&& m1.contains_key(key)
            &&& spec_get_or_create(m1, key, config_later) == m1
            &&& spec_breaker_at(m1, key, config_later) == spec_breaker_at(m, key, config_then)
        }),
{
}

/// The message reported when an app type has no current provider set.
pub open spec fn no_current_message(app_type: Seq<char>) -> Seq<char> {
    "No current provider for "@ + app_type
}

/// The message reported when the current-provider marker names a provider
/// that is not stored.
pub open spec fn missing_current_message(provider_id: Seq<char>) -> Seq<char> {
    "Current provider "@ + provider_id + " not found"@
}

/// The names of the given providers, in order.
pub open spec fn provider_names(providers: Seq<Provider>) -> Seq<Seq<char>> {
    providers.map_values(|p: Provider| p.name@)
}

/// The message reported when every candidate's breaker denies requests: it
/// enumerates every candidate's name.
pub open spec fn all_open_message(providers: Seq<Provider>) -> Seq<char> {
    "All providers are circuit-open: "@ + spec_join(provider_names(providers), ", "@)
}

/// Law: the all-circuit-open failure message holds every candidate's name
/// whole, so an operator can diagnose from the message alone.
pub proof fn lemma_all_open_message_contains_every_name(providers: Seq<Provider>, k: int)
    requires
        0 <= k < providers.len(),
    ensures
        exists|at: int|
            0 <= at && at + providers[k].name@.len() <= all_open_message(providers).len()
                && #[trigger] all_open_message(providers).subrange(
                at,
                at + providers[k].name@.len(),
            ) == providers[k].name@,
{
    let names = provider_names(providers);
    let sep = ", "@;
    crate::text::lemma_join_contains_each(names, sep, k);
    let at0 = choose|at: int|
        0 <= at && at + names[k].len() <= spec_join(names, sep).len() && #[trigger] spec_join(
            names,
            sep,
        ).subrange(at, at + names[k].len()) == names[k];
    let prefix = "All providers are circuit-open: "@;
    let at = at0 + prefix.len();
    assert(all_open_message(providers).subrange(at, at + providers[k].name@.len())
        == providers[k].name@) by {
        assert(all_open_message(providers).subrange(at, at + providers[k].name@.len())
            =~= spec_join(names, sep).subrange(at0, at0 + names[k].len()));
    }
}

/// What a current-provider-only answer looks like: the one provider marked
/// current, or a configuration error saying why none could be returned.
pub open spec fn current_only_post(
    db: Database,
    app_type: Seq<char>,
    r: Result<Vec<Provider>, AppError>,
) -> bool {
    if !db.has_current(app_type) {
        r matches Err(AppError::Config(m)) && m@ == no_current_message(app_type)
    } else if !db.has_provider(app_type, db.spec_current(app_type)) {
        r matches Err(AppError::Config(m)) && m@ == missing_current_message(
            db.spec_current(app_type),
        )
    } else {
        r matches Ok(v) && v@ == seq![
            db.provider_record(app_type, db.spec_current(app_type)).provider,
        ]
    }
}

/// The registry map and the selection outcome after walking `providers` in
/// priority order: each provider's breaker is obtained (created fresh under
/// `config` when absent) and asked to admit a request at `now_ms`; the walk
/// stops at the first provider admitted, and answers with none when every
/// candidate is denied.
pub open spec fn spec_select(
    m: Map<Seq<char>, CircuitBreaker>,
    providers: Seq<Provider>,
    app_type: Seq<char>,
    config: CircuitBreakerConfig,
    now_ms: u64,
) -> (Map<Seq<char>, CircuitBreaker>, Option<Provider>)
    decreases providers.len(),
{
    if providers.len() == 0 {
        (m, None)
    } else {
        let p = providers[0];
        let key = circuit_key(app_type, p.id@);
        let step = spec_breaker_at(m, key, config).spec_allow(now_ms);
        let m1 = m.insert(key, step.0);
        if step.1 {
            (m1, Some(p))
        } else {
            spec_select(m1, providers.drop_first(), app_type, config, now_ms)
        }
    }
}

/// Law: when every candidate's breaker stands Open with its recovery
/// timeout not yet elapsed at `now_ms`, the selection walk admits no
/// candidate and leaves every breaker as it was.
pub proof fn lemma_select_all_open_fails(
    m: Map<Seq<char>, CircuitBreaker>,
    providers: Seq<Provider>,
    app_type: Seq<char>,
    config: CircuitBreakerConfig,
    now_ms: u64,
)
    requires
        forall|k: int|
            0 <= k < providers.len() ==> ({
                let key = circuit_key(app_type, (#[trigger] providers[k]).id@);
                &&& m.contains_key(key)
                &&& m[key].state == crate::breaker::CircuitState::Open
                &&& now_ms < m[key].opened_at_ms + m[key].config.recovery_timeout_ms
            }),
    ensures
        spec_select(m, providers, app_type, config, now_ms) == (m, None::<Provider>),
    decreases providers.len(),
{
    if providers.len() > 0 {
        let p = providers[0];
        let key = circuit_key(app_type, p.id@);
        assert(m.insert(key, m[key]) =~= m);
        assert forall|k: int| 0 <= k < providers.drop_first().len() implies ({
            let okey = circuit_key(app_type, (#[trigger] providers.drop_first()[k]).id@);
            &&& m.contains_key(okey)
            &&& m[okey].state == crate::breaker::CircuitState::Open
            &&& now_ms < m[okey].opened_at_ms + m[okey].config.recovery_timeout_ms
        }) by {
            assert(providers.drop_first()[k] == providers[k + 1]);
        }
        lemma_select_all_open_fails(m, providers.drop_first(), app_type, config, now_ms);
    }
}

/// Law: when every candidate before position `k` stands Open with its
/// recovery timeout not yet elapsed at `now_ms`, and candidate `k`'s
/// breaker stands Closed, the selection walk answers exactly candidate `k`
/// as the first admitting provider — the ones behind it are never asked.
pub proof fn lemma_select_first_closed_candidate(
    m: Map<Seq<char>, CircuitBreaker>,
    providers: Seq<Provider>,
    app_type: Seq<char>,
    config: CircuitBreakerConfig,
    now_ms: u64,
    k: int,
)
    requires
        0 <= k < providers.len(),
        forall|i: int|
            0 <= i < k ==> ({
                let key = circuit_key(app_type, (#[trigger] providers[i]).id@);
                &&& m.contains_key(key)
                &&& m[key].state == crate::breaker::CircuitState::Open
                &&& now_ms < m[key].opened_at_ms + m[key].config.recovery_timeout_ms
            }),
        ({
            let key = circuit_key(app_type, providers[k].id@);
            m.contains_key(key) && m[key].state == crate::breaker::CircuitState::Closed
        }),
    ensures
        spec_select(m, providers, app_type, config, now_ms).1 == Some(providers[k]),
    decreases k,
{
    if k == 0 {
        let key = circuit_key(app_type, providers[0].id@);
        assert(spec_breaker_at(m, key, config).spec_allow(now_ms).1);
    } else {
        let key = circuit_key(app_type, providers[0].id@);
        assert(m.insert(key, m[key]) =~= m);
        assert forall|i: int| 0 <= i < k - 1 implies ({
            let okey = circuit_key(app_type, (#[trigger] providers.drop_first()[i]).id@);
            &&& m.contains_key(okey)
            &&& m[okey].state == crate::breaker::CircuitState::Open
            &&& now_ms < m[okey].opened_at_ms + m[okey].config.recovery_timeout_ms
        }) by {
            assert(providers.drop_first()[i] == providers[i + 1]);
        }
        assert(providers.drop_first()[k - 1] == providers[k]);
        lemma_select_first_closed_candidate(
            m,
            providers.drop_first(),
            app_type,
            config,
            now_ms,
            k - 1,
        );
    }
}

/// Builds the all-circuit-open failure message for these candidates.
#[verifier::loop_isolation(false)]
fn build_all_open_message(providers: &Vec<Provider>) -> (s: String)
    ensures
        s@ == all_open_message(providers@),
{
    let mut names: Vec<String> = Vec::new();
    let mut i: usize = 0;
    while i < providers.len()
        invariant
            i <= providers@.len(),
            names@.len() == i,
            forall|j: int| 0 <= j < i ==> (#[trigger] names@[j])@ == providers@[j].name@,
        decreases providers@.len() - i,
    {
        names.push(providers[i].name.clone());
        i = i + 1;
    }
    proof {
        assert forall|j: int|
            0 <= j < names@.len() implies crate::text::string_views(names@)[j] == provider_names(
            providers@,
        )[j] by {}
        assert(crate::text::string_views(names@) =~= provider_names(providers@));
    }
    let joined = crate::text::join_strings(&names, ", ");
    String::from_str("All providers are circuit-open: ").concat(joined.as_str())
}

/// The router: the store it reads configuration from and writes health to,
/// and its registry of circuit breakers.
#[derive(Debug)]
pub struct ProviderRouter {
    pub db: Database,
    pub breakers: Vec<BreakerEntry>,
}

impl ProviderRouter {
    /// The store is well formed and no registry key repeats.
    pub open spec fn wf(self) -> bool {
        &&& self.db.wf()
        &&& keys_unique(self.breakers@)
    }

    /// The registry read as a map from key to breaker.
    pub open spec fn breakers_map(self) -> Map<Seq<char>, CircuitBreaker> {
        registry_map(self.breakers@)
    }

    /// Creates a router over a store, with an empty breaker registry.
    pub fn new(db: Database) -> (router: ProviderRouter)
        requires
            db.wf(),
        ensures
            router.wf(),
            router.db == db,
            router.breakers_map() == Map::<Seq<char>, CircuitBreaker>::empty(),
    {
        ProviderRouter { db, breakers: Vec::new() }
    }

    /// The registry slot holding `key`, if any.
    #[verifier::loop_isolation(false)]
    fn find_breaker_index(&self, key: &str) -> (r: Option<usize>)
        requires
            self.wf(),
        ensures
            match r {
                Some(i) => i < self.breakers@.len() && self.breakers@[i as int].key@ == key@
                    && self.breakers_map().contains_key(key@) && self.breakers_map()[key@]
                    == self.breakers@[i as int].breaker,
                None => !self.breakers_map().contains_key(key@),
            },
    {
        let mut i: usize = 0;
        while i < self.breakers.len()
            invariant
                i <= self.breakers@.len(),
                forall|j: int| 0 <= j < i ==> (#[trigger] self.breakers@[j]).key@ != key@,
            decreases self.breakers@.len() - i,
        {
            if str_eq(self.breakers[i].key.as_str(), key) {
                proof {
                    lemma_registry_witness(self.breakers@, i as int);
                }
                return Some(i);
            }
            i = i + 1;
        }
        proof {
            lemma_registry_contains(self.breakers@, key@);
        }
        None
    }

    /// Looks the breaker for `key` up; on a miss, creates one seeded from
    /// the configuration currently stored, and registers it. Answers with
    /// the slot index.
    fn ensure_breaker(&mut self, key: &str) -> (idx: usize)
        requires
            old(self).wf(),
        ensures
            final(self).wf(),
            final(self).db == old(self).db,
            final(self).breakers_map() == spec_get_or_create(
                old(self).breakers_map(),
                key@,
                old(self).db.spec_config(),
            ),
            idx < final(self).breakers@.len(),
            final(self).breakers@[idx as int].key@ == key@,
            final(self).breakers@[idx as int].breaker == spec_breaker_at(
                old(self).breakers_map(),
                key@,
                old(self).db.spec_config(),
            ),
    {
        match self.find_breaker_index(key) {
            Some(i) => i,
            None => {
                let config = self.db.get_circuit_breaker_config();
                let entry = BreakerEntry {
                    key: key.to_owned(),
                    breaker: CircuitBreaker::new(config),
                };
                let ghost s0 = self.breakers@;
                self.breakers.push(entry);
                proof {
                    let s1 = self.breakers@;
                    lemma_registry_contains(s0, key@);
                    assert forall|a: int, b: int|
                        0 <= a < b < s1.len() implies (#[trigger] s1[a]).key@ != (
                    #[trigger] s1[b]).key@ by {
                        if b < s1.len() - 1 {
                            assert(s1[a] == s0[a] && s1[b] == s0[b]);
                        } else {
                            assert(s1[a] == s0[a]);
                        }
                    }
                    assert(s1.drop_last() =~= s0);
                }
                self.breakers.len() - 1
            },
        }
    }

    /// Gets or creates the breaker for `key` and answers with a snapshot
    /// copy of it.
    pub fn get_or_create_circuit_breaker_pub(&mut self, key: &str) -> (b: CircuitBreaker)
        requires
            old(self).wf(),
        ensures
            final(self).wf(),
            final(self).db == old(self).db,
            final(self).breakers_map() == spec_get_or_create(
                old(self).breakers_map(),
                key@,
                old(self).db.spec_config(),
            ),
            b == spec_breaker_at(old(self).breakers_map(), key@, old(self).db.spec_config()),
    {
        let idx = self.ensure_breaker(key);
        self.breakers[idx].breaker
    }

    /// Gets or creates the breaker for `key` and asks it to admit a request
    /// at `now_ms`, with the breaker's own state transition as a side
    /// effect.
    pub fn allow_request_for(&mut self, key: &str, now_ms: u64) -> (allowed: bool)
        requires
            old(self).wf(),
        ensures
            final(self).wf(),
            final(self).db == old(self).db,
            ({
                let b0 = spec_breaker_at(
                    old(self).breakers_map(),
                    key@,
                    old(self).db.spec_config(),
                );
                &&& final(self).breakers_map() == old(self).breakers_map().insert(
                    key@,
                    b0.spec_allow(now_ms).0,
                )
                &&& allowed == b0.spec_allow(now_ms).1
            }),
    {
        let idx = self.ensure_breaker(key);
        let ghost s_mid = self.breakers@;
        let mut b = self.breakers[idx].breaker;
        let allowed = b.allow_request(now_ms);
        let new_key = self.breakers[idx].key.clone();
        self.breakers.set(idx, BreakerEntry { key: new_key, breaker: b });
        proof {
            lemma_registry_update(s_mid, self.breakers@, idx as int);
            assert(self.breakers_map() =~= old(self).breakers_map().insert(
                key@,
                spec_breaker_at(
                    old(self).breakers_map(),
                    key@,
                    old(self).db.spec_config(),
                ).spec_allow(now_ms).0,
            ));
        }
        allowed
    }

    /// Forces the breaker registered under `circuit_key` back to Closed;
    /// a key no breaker has materialized for yet is left alone.
    pub fn reset_circuit_breaker(&mut self, circuit_key: &str)
        requires
            old(self).wf(),
        ensures
            final(self).wf(),
            final(self).db == old(self).db,
            final(self).breakers_map() == if old(self).breakers_map().contains_key(circuit_key@) {
                old(self).breakers_map().insert(
                    circuit_key@,
                    old(self).breakers_map()[circuit_key@].spec_reset(),
                )
            } else {
                old(self).breakers_map()
            },
    {
        match self.find_breaker_index(circuit_key) {
            Some(idx) => {
                let mut b = self.breakers[idx].breaker;
                b.reset();
                let new_key = self.breakers[idx].key.clone();
                self.breakers.set(idx, BreakerEntry { key: new_key, breaker: b });
                proof {
                    lemma_registry_update(old(self).breakers@, self.breakers@, idx as int);
                }
            },
            None => {},
        }
    }

    /// The externally callable twin of `reset_circuit_breaker`, for the
    /// recovery checker and manual operator recovery.
    pub fn reset_circuit_breaker_pub(&mut self, circuit_key: &str)
        requires
            old(self).wf(),
        ensures
            final(self).wf(),
            final(self).db == old(self).db,
            final(self).breakers_map() == if old(self).breakers_map().contains_key(circuit_key@) {
                old(self).breakers_map().insert(
                    circuit_key@,
                    old(self).breakers_map()[circuit_key@].spec_reset(),
                )
            } else {
                old(self).breakers_map()
            },
    {
        self.reset_circuit_breaker(circuit_key)
    }

    /// Reads a snapshot of the breaker of one provider, if one has
    /// materialized.
    pub fn get_circuit_breaker_stats(&self, provider_id: &str, app_type: &str) -> (r: Option<
        CircuitBreakerStats,
    >)
        requires
            self.wf(),
        ensures
            ({
                let key = circuit_key(app_type@, provider_id@);
                match r {
                    Some(s) => self.breakers_map().contains_key(key) && ({
                        let b = self.breakers_map()[key];
                        s.state == b.state && s.consecutive_failures == b.consecutive_failures
                            && s.opened_at_ms == b.opened_at_ms
                    }),
                    None => !self.breakers_map().contains_key(key),
                }
            }),
    {
        let key = compose_key(app_type, provider_id);
        match self.find_breaker_index(key.as_str()) {
            Some(idx) => Some(self.breakers[idx].breaker.get_stats()),
            None => None,
        }
    }

    /// Answers with the one provider marked current for `app_type`,
    /// bypassing all circuit logic; fails with a configuration error when
    /// none is set or the marker names a provider that is not stored.
    fn get_current_provider_only(&self, app_type: &str) -> (r: Result<Vec<Provider>, AppError>)
        requires
            self.wf(),
        ensures
            current_only_post(self.db, app_type@, r),
    {
        let current_id = match self.db.get_current_provider(app_type) {
            Some(id) => id,
            None => {
                let m = String::from_str("No current provider for ").concat(app_type);
                return Err(AppError::Config(m));
            },
        };
        match self.db.get_provider_by_id(current_id.as_str(), app_type) {
            Some(p) => {
                let mut v: Vec<Provider> = Vec::new();
                v.push(p);
                proof {
                    assert(v@ =~= seq![
                        self.db.provider_record(app_type@, self.db.spec_current(app_type@)).provider,
                    ]);
                }
                Ok(v)
            },
            None => {
                let m = String::from_str("Current provider ").concat(current_id.as_str()).concat(
                    " not found",
                );
                Err(AppError::Config(m))
            },
        }
    }

    /// Decides which provider the next request for `app_type` should use.
    ///
    /// With failover disabled the answer is the provider marked current,
    /// whatever any breaker holds. Otherwise the failover candidates are
    /// walked in ascending `sort_index` order and the first whose breaker
    /// admits a request at `now_ms` is answered as a singleton — providers
    /// behind it are neither asked nor returned. With no candidate stored
    /// the current-provider answer is used; with every candidate denied the
    /// call fails with a message enumerating every candidate's name.
    #[verifier::loop_isolation(false)]
    pub fn select_providers(&mut self, app_type: &str, now_ms: u64) -> (r: Result<
        Vec<Provider>,
        AppError,
    >)
        requires
            old(self).wf(),
        ensures
            final(self).wf(),
            final(self).db == old(self).db,
            ({
                let db = old(self).db;
                let config = db.spec_config();
                let candidates = providers_for(db.providers@, app_type@, true);
                if !config.enabled || candidates.len() == 0 {
                    &&& final(self).breakers@ == old(self).breakers@
                    &&& current_only_post(db, app_type@, r)
                } else {
                    let outcome = spec_select(
                        old(self).breakers_map(),
                        candidates,
                        app_type@,
                        config,
                        now_ms,
                    );
                    &&& final(self).breakers_map() == outcome.0
                    &&& match outcome.1 {
                        Some(p) => r matches Ok(v) && v@ == seq![p],
                        None => r matches Err(AppError::Config(m)) && m@ == all_open_message(
                            candidates,
                        ),
                    }
                }
            }),
    {
        let config = self.db.get_circuit_breaker_config();
        if !config.enabled {
            return self.get_current_provider_only(app_type);
        }
        let providers = self.db.get_failover_providers(app_type);
        if providers.len() == 0 {
            return self.get_current_provider_only(app_type);
        }
        let ghost m0 = self.breakers_map();
        let ghost pv = providers@;
        proof {
            assert(pv.skip(0) =~= pv);
        }
        let mut i: usize = 0;
        while i < providers.len()
            invariant
                i <= pv.len(),
                providers@ == pv,
                self.db == old(self).db,
                self.wf(),
                spec_select(m0, pv, app_type@, config, now_ms) == spec_select(
                    self.breakers_map(),
                    pv.skip(i as int),
                    app_type@,
                    config,
                    now_ms,
                ),
            decreases pv.len() - i,
        {
            let key = compose_key(app_type, providers[i].id.as_str());
            proof {
                assert(pv.skip(i as int)[0] == pv[i as int]);
                assert(pv.skip(i as int).drop_first() =~= pv.skip(i + 1));
            }
            let allowed = self.allow_request_for(key.as_str(), now_ms);
            if allowed {
                let p = providers[i].clone();
                let mut v: Vec<Provider> = Vec::new();
                v.push(p);
                proof {
                    assert(v@ =~= seq![pv[i as int]]);
                }
                return Ok(v);
            }
            i = i + 1;
        }
        proof {
            assert(pv.skip(pv.len() as int) =~= Seq::<Provider>::empty());
        }
        let m = build_all_open_message(&providers);
        Err(AppError::Config(m))
    }

    /// Absorbs one request outcome for a provider: the breaker under
    /// `app_type:provider_id` records it, the outcome is persisted into the
    /// provider's health row, and — only on a failure whose persisted count
    /// has reached the failure threshold — the provider's proxy-target flag
    /// is set to disabled, removing it from candidacy until re-enabled.
    pub fn record_result(
        &mut self,
        provider_id: &str,
        app_type: &str,
        success: bool,
        error_msg: Option<String>,
        now_ms: u64,
    ) -> (r: Result<(), AppError>)
        requires
            old(self).wf(),
        ensures
            final(self).wf(),
            r is Ok,
            ({
                let key = circuit_key(app_type@, provider_id@);
                let b0 = spec_breaker_at(
                    old(self).breakers_map(),
                    key,
                    old(self).db.spec_config(),
                );
                final(self).breakers_map() == old(self).breakers_map().insert(
                    key,
                    if success {
                        b0.spec_record_success()
                    } else {
                        b0.spec_record_failure(now_ms)
                    },
                )
            }),
            final(self).db.spec_health(provider_id@, app_type@) == Database::health_after(
                old(self).db.spec_health(provider_id@, app_type@),
                success,
                error_msg,
                now_ms,
            ),
            forall|oid: Seq<char>, oapp: Seq<char>|
                !(oid == provider_id@ && oapp == app_type@) ==> #[trigger] final(self).db.has_health(oid, oapp)
                    == old(self).db.has_health(oid, oapp)
                    && final(self).db.spec_health(oid, oapp)
                    == old(self).db.spec_health(oid, oapp),
            ({
                let new_failures = Database::health_after(
                    old(self).db.spec_health(provider_id@, app_type@),
                    success,
                    error_msg,
                    now_ms,
                ).consecutive_failures;
                let threshold = old(self).db.spec_config().failure_threshold;
                if !success && new_failures >= threshold && old(self).db.has_provider(
                    app_type@,
                    provider_id@,
                ) {
                    final(self).db.has_provider(app_type@, provider_id@)
                        && final(self).db.provider_record(app_type@, provider_id@)
                        == (ProviderRecord {
                        provider: old(self).db.provider_record(app_type@, provider_id@).provider,
                        enabled: false,
                    })
                } else {
                    final(self).db.providers@ == old(self).db.providers@
                }
            }),
            forall|oapp: Seq<char>, oid: Seq<char>|
                !(oapp == app_type@ && oid == provider_id@)
                    ==> #[trigger] final(self).db.has_provider(oapp, oid)
                    == old(self).db.has_provider(oapp, oid)
                    && (old(self).db.has_provider(oapp, oid)
                    ==> final(self).db.provider_record(oapp, oid)
                    == old(self).db.provider_record(oapp, oid)),
            final(self).db.current@ == old(self).db.current@,
            final(self).db.config == old(self).db.config,
    {
        let key = compose_key(app_type, provider_id);
        let idx = self.ensure_breaker(key.as_str());
        let ghost s_mid = self.breakers@;
        let mut b = self.breakers[idx].breaker;
        if success {
            b.record_success();
        } else {
            b.record_failure(now_ms);
        }
        let new_key = self.breakers[idx].key.clone();
        self.breakers.set(idx, BreakerEntry { key: new_key, breaker: b });
        proof {
            lemma_registry_update(s_mid, self.breakers@, idx as int);
            assert(self.breakers_map() =~= old(self).breakers_map().insert(
                key@,
                if success {
                    spec_breaker_at(
                        old(self).breakers_map(),
                        key@,
                        old(self).db.spec_config(),
                    ).spec_record_success()
                } else {
                    spec_breaker_at(
                        old(self).breakers_map(),
                        key@,
                        old(self).db.spec_config(),
                    ).spec_record_failure(now_ms)
                },
            ));
        }
        self.db.update_provider_health(provider_id, app_type, success, error_msg, now_ms);
        let ghost db_mid = self.db;
        if !success {
            let health = self.db.get_provider_health(provider_id, app_type);
            let config = self.db.get_circuit_breaker_config();
            if health.consecutive_failures >= config.failure_threshold {
                self.db.set_proxy_target(provider_id, app_type, false);
            }
        }
        proof {
            assert(self.db.health@ == db_mid.health@);
            assert forall|oid: Seq<char>, oapp: Seq<char>|
                !(oid == provider_id@ && oapp == app_type@) implies #[trigger] self.db.has_health(
                oid,
                oapp,
            ) == old(self).db.has_health(oid, oapp) && self.db.spec_health(oid, oapp) == old(
                self,
            ).db.spec_health(oid, oapp) by {
                assert(db_mid.has_health(oid, oapp) == old(self).db.has_health(oid, oapp));
                assert(self.db.has_health(oid, oapp) == db_mid.has_health(oid, oapp));
                assert(self.db.spec_health(oid, oapp) == db_mid.spec_health(oid, oapp));
            }
            assert(self.db.spec_health(provider_id@, app_type@) == db_mid.spec_health(
                provider_id@,
                app_type@,
            ));
        }
        Ok(())
    }
}

} // verus!
