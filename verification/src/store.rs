//! An in-memory store holding provider configuration, the current-provider
//! markers, the circuit-breaker configuration and per-provider health.
//!
//! This is the single source of truth the router reads its configuration
//! from and writes outcome bookkeeping to. It keeps provider records in
//! ascending `sort_index` order, at most one record per
//! `(app_type, provider id)` pair, at most one current marker per app type
//! and at most one health row per provider.

use crate::breaker::saturating_inc;
use crate::config::CircuitBreakerConfig;
use crate::provider::{Provider, ProviderHealth};
use crate::text::str_eq;
use vstd::pervasive::VecAdditionalExecFns;
use vstd::prelude::*;
use vstd::string::StringExecFns;

verus! {

/// A stored provider together with its persisted proxy-target flag. A
/// provider whose flag is off is no failover candidate, whatever its
/// breaker state.
#[derive(Debug)]
pub struct ProviderRecord {
    pub provider: Provider,
    pub enabled: bool,
}

/// The provider marked current for one app type.
#[derive(Debug)]
pub struct CurrentRecord {
    pub app_type: String,
    pub provider_id: String,
}

/// The persisted health row of one provider.
#[derive(Debug)]
pub struct HealthRecord {
    pub provider_id: String,
    pub app_type: String,
    pub health: ProviderHealth,
}

/// The in-memory store.
#[derive(Debug)]
pub struct Database {
    pub providers: Vec<ProviderRecord>,
    pub current: Vec<CurrentRecord>,
    pub config: Option<CircuitBreakerConfig>,
    pub health: Vec<HealthRecord>,
}

/// Whether record `r` belongs to the given provider key.
pub open spec fn record_is_for(r: ProviderRecord, app_type: Seq<char>, id: Seq<char>) -> bool {
    r.provider.app_type@ == app_type && r.provider.id@ == id
}

/// Whether health row `r` belongs to the given provider key.
pub open spec fn health_is_for(r: HealthRecord, id: Seq<char>, app_type: Seq<char>) -> bool {
    r.provider_id@ == id && r.app_type@ == app_type
}

/// Provider records stand in ascending `sort_index` order.
pub open spec fn providers_sorted(s: Seq<ProviderRecord>) -> bool {
    forall|i: int, j: int|
        0 <= i < j < s.len() ==> #[trigger] s[i].provider.sort_index
            <= #[trigger] s[j].provider.sort_index
}

/// No two provider records share an `(app_type, id)` key.
pub open spec fn providers_unique(s: Seq<ProviderRecord>) -> bool {
    forall|i: int, j: int|
        0 <= i < j < s.len() ==> !record_is_for(
            #[trigger] s[i],
            (#[trigger] s[j]).provider.app_type@,
            s[j].provider.id@,
        )
}

/// No two current markers share an app type.
pub open spec fn current_unique(s: Seq<CurrentRecord>) -> bool {
    forall|i: int, j: int|
        0 <= i < j < s.len() ==> (#[trigger] s[i]).app_type@ != (#[trigger] s[j]).app_type@
}

/// No two health rows share a provider key.
pub open spec fn health_unique(s: Seq<HealthRecord>) -> bool {
    forall|i: int, j: int|
        0 <= i < j < s.len() ==> !health_is_for(
            #[trigger] s[i],
            (#[trigger] s[j]).provider_id@,
            s[j].app_type@,
        )
}

/// Whether some marker of `s` is for `app_type`.
pub open spec fn seq_has_current(s: Seq<CurrentRecord>, app_type: Seq<char>) -> bool {
    exists|i: int| 0 <= i < s.len() && (#[trigger] s[i]).app_type@ == app_type
}

/// The provider id the marker for `app_type` carries.
pub open spec fn seq_current(s: Seq<CurrentRecord>, app_type: Seq<char>) -> Seq<char> {
    s[choose|i: int| 0 <= i < s.len() && (#[trigger] s[i]).app_type@ == app_type].provider_id@
}

/// Whether some health row of `s` is for the given provider key.
pub open spec fn seq_has_health(s: Seq<HealthRecord>, id: Seq<char>, app_type: Seq<char>) -> bool {
    exists|i: int| 0 <= i < s.len() && health_is_for(#[trigger] s[i], id, app_type)
}

/// The health row of `s` for the given provider key.
pub open spec fn seq_health(s: Seq<HealthRecord>, id: Seq<char>, app_type: Seq<char>) -> ProviderHealth {
    s[choose|i: int| 0 <= i < s.len() && health_is_for(#[trigger] s[i], id, app_type)].health
}

/// The providers of `s` that belong to `app_type`, keeping their order;
/// with `enabled_only`, those whose proxy-target flag is on.
pub open spec fn providers_for(
    s: Seq<ProviderRecord>,
    app_type: Seq<char>,
    enabled_only: bool,
) -> Seq<Provider>
    decreases s.len(),
{
    if s.len() == 0 {
        Seq::empty()
    } else {
        let rest = providers_for(s.drop_last(), app_type, enabled_only);
        let r = s.last();
        if r.provider.app_type@ == app_type && (!enabled_only || r.enabled) {
            rest.push(r.provider)
        } else {
            rest
        }
    }
}

/// Every provider filtered out of records bounded by `bound` is bounded by
/// it too.
proof fn lemma_providers_for_bounded(
    s: Seq<ProviderRecord>,
    app_type: Seq<char>,
    enabled_only: bool,
    bound: i64,
)
    requires
        forall|i: int| 0 <= i < s.len() ==> (#[trigger] s[i]).provider.sort_index <= bound,
    ensures
        forall|k: int|
            0 <= k < providers_for(s, app_type, enabled_only).len() ==> (#[trigger] providers_for(
                s,
                app_type,
                enabled_only,
            )[k]).sort_index <= bound,
    decreases s.len(),
{
    if s.len() > 0 {
        lemma_providers_for_bounded(s.drop_last(), app_type, enabled_only, bound);
    }
}

/// Law: the provider lists the store answers keep ascending `sort_index`
/// order whenever its records stand in that order — so selection walks
/// candidates from the highest failover priority down.
pub proof fn lemma_providers_for_sorted(
    s: Seq<ProviderRecord>,
    app_type: Seq<char>,
    enabled_only: bool,
)
    requires
        providers_sorted(s),
    ensures
        ({
            let r = providers_for(s, app_type, enabled_only);
            forall|i: int, j: int|
                0 <= i < j < r.len() ==> (#[trigger] r[i]).sort_index
                    <= (#[trigger] r[j]).sort_index
        }),
    decreases s.len(),
{
    if s.len() > 0 {
        lemma_providers_for_sorted(s.drop_last(), app_type, enabled_only);
        lemma_providers_for_bounded(
            s.drop_last(),
            app_type,
            enabled_only,
            s.last().provider.sort_index,
        );
    }
}

/// The index at which a record of the given `sort_index` is inserted: just
/// after every record whose `sort_index` is not above it.
pub open spec fn insert_pos(s: Seq<ProviderRecord>, sort_index: i64) -> int
    decreases s.len(),
{
    if s.len() == 0 {
        0
    } else if s[0].provider.sort_index > sort_index {
        0
    } else {
        1 + insert_pos(s.drop_first(), sort_index)
    }
}

/// `insert_pos` is exactly the boundary between the records not above
/// `sort_index` and the rest.
proof fn lemma_insert_pos_boundary(s: Seq<ProviderRecord>, sort_index: i64, at: int)
    requires
        0 <= at <= s.len(),
        forall|j: int| 0 <= j < at ==> (#[trigger] s[j]).provider.sort_index <= sort_index,
        at < s.len() ==> s[at].provider.sort_index > sort_index,
    ensures
        insert_pos(s, sort_index) == at,
    decreases s.len(),
{
    if s.len() > 0 && at > 0 {
        lemma_insert_pos_boundary(s.drop_first(), sort_index, at - 1);
    }
}

/// In a marker sequence without duplicate app types, a marker found for
/// `app_type` is the one every lookup answers with.
proof fn lemma_current_witness(s: Seq<CurrentRecord>, i: int, app_type: Seq<char>)
    requires
        current_unique(s),
        0 <= i < s.len(),
        s[i].app_type@ == app_type,
    ensures
        seq_has_current(s, app_type),
        seq_current(s, app_type) == s[i].provider_id@,
{
    let w = choose|j: int| 0 <= j < s.len() && (#[trigger] s[j]).app_type@ == app_type;
    if w != i {
        assert(false);
    }
}

/// In a store without duplicate provider keys, a record found for a key is
/// the one every lookup answers with.
proof fn lemma_provider_witness(db: Database, i: int, app_type: Seq<char>, id: Seq<char>)
    requires
        providers_unique(db.providers@),
        0 <= i < db.providers@.len(),
        record_is_for(db.providers@[i], app_type, id),
    ensures
        db.has_provider(app_type, id),
        db.provider_record(app_type, id) == db.providers@[i],
{
    let w = choose|j: int|
        0 <= j < db.providers@.len() && record_is_for(#[trigger] db.providers@[j], app_type, id);
    if w != i {
        assert(false);
    }
}

/// In a health sequence without duplicate keys, a row found for a key is
/// the one every lookup answers with.
proof fn lemma_health_witness(s: Seq<HealthRecord>, i: int, id: Seq<char>, app_type: Seq<char>)
    requires
        health_unique(s),
        0 <= i < s.len(),
        health_is_for(s[i], id, app_type),
    ensures
        seq_has_health(s, id, app_type),
        seq_health(s, id, app_type) == s[i].health,
{
    let w = choose|j: int| 0 <= j < s.len() && health_is_for(#[trigger] s[j], id, app_type);
    if w != i {
        assert(false);
    }
}

impl Database {
    /// Every structural invariant of the store at once.
    pub open spec fn wf(self) -> bool {
        &&& providers_sorted(self.providers@)
        &&& providers_unique(self.providers@)
        &&& current_unique(self.current@)
        &&& health_unique(self.health@)
    }

    /// Whether a provider with the given key is stored.
    pub open spec fn has_provider(self, app_type: Seq<char>, id: Seq<char>) -> bool {
        exists|i: int|
            0 <= i < self.providers@.len() && record_is_for(
                #[trigger] self.providers@[i],
                app_type,
                id,
            )
    }

    /// The stored record of the given provider key.
    pub open spec fn provider_record(self, app_type: Seq<char>, id: Seq<char>) -> ProviderRecord {
        self.providers@[choose|i: int|
            0 <= i < self.providers@.len() && record_is_for(
                #[trigger] self.providers@[i],
                app_type,
                id,
            )]
    }

    /// Whether a health row for the given provider key is stored.
    pub open spec fn has_health(self, id: Seq<char>, app_type: Seq<char>) -> bool {
        seq_has_health(self.health@, id, app_type)
    }

    /// The health of a provider: its stored row, or the zero row while none
    /// has been recorded.
    pub open spec fn spec_health(self, id: Seq<char>, app_type: Seq<char>) -> ProviderHealth {
        if seq_has_health(self.health@, id, app_type) {
            seq_health(self.health@, id, app_type)
        } else {
            ProviderHealth { consecutive_failures: 0, last_error: None, last_checked_ms: 0 }
        }
    }

    /// Whether an app type has a current-provider marker.
    pub open spec fn has_current(self, app_type: Seq<char>) -> bool {
        seq_has_current(self.current@, app_type)
    }

    /// The provider id marked current for an app type.
    pub open spec fn spec_current(self, app_type: Seq<char>) -> Seq<char> {
        seq_current(self.current@, app_type)
    }

    /// The circuit-breaker configuration in force: the stored one, or the
    /// default while none is stored.
    pub open spec fn spec_config(self) -> CircuitBreakerConfig {
        match self.config {
            Some(c) => c,
            None => crate::config::spec_default_config(),
        }
    }

    /// Creates an empty store.
    pub fn new() -> (db: Database)
        ensures
            db.wf(),
            db.providers@.len() == 0,
            db.current@.len() == 0,
            db.config is None,
            db.health@.len() == 0,
    {
        Database { providers: Vec::new(), current: Vec::new(), config: None, health: Vec::new() }
    }

    /// The index of the record holding the given provider key, if any.
    fn find_provider_index(&self, id: &str, app_type: &str) -> (r: Option<usize>)
        ensures
            match r {
                Some(i) => i < self.providers@.len() && record_is_for(
                    self.providers@[i as int],
                    app_type@,
                    id@,
                ),
                None => !self.has_provider(app_type@, id@),
            },
    {
        let mut i: usize = 0;
        while i < self.providers.len()
            invariant
                i <= self.providers@.len(),
                forall|j: int|
                    0 <= j < i ==> !record_is_for(#[trigger] self.providers@[j], app_type@, id@),
            decreases self.providers@.len() - i,
        {
            let r = &self.providers[i];
            if str_eq(r.provider.app_type.as_str(), app_type) && str_eq(
                r.provider.id.as_str(),
                id,
            ) {
                return Some(i);
            }
            i = i + 1;
        }
        None
    }

    /// Stores a provider at its priority position, unless one with the same
    /// key is already stored; reports whether it was added.
    pub fn add_provider(&mut self, provider: Provider, enabled: bool) -> (added: bool)
        requires
            old(self).wf(),
        ensures
            final(self).wf(),
            added == !old(self).has_provider(provider.app_type@, provider.id@),
            !added ==> *final(self) == *old(self),
            added ==> final(self).providers@ == old(self).providers@.insert(
                insert_pos(old(self).providers@, provider.sort_index),
                (ProviderRecord { provider, enabled }),
            ),
            final(self).current@ == old(self).current@,
            final(self).config == old(self).config,
            final(self).health@ == old(self).health@,
    {
        if self.find_provider_index(provider.id.as_str(), provider.app_type.as_str()).is_some() {
            return false;
        }
        let ghost s0 = self.providers@;
        let mut at: usize = 0;
        while at < self.providers.len() && self.providers[at].provider.sort_index
            <= provider.sort_index
            invariant
                at <= self.providers@.len(),
                self.providers@ == s0,
                forall|j: int|
                    0 <= j < at ==> (#[trigger] s0[j]).provider.sort_index <= provider.sort_index,
            decreases self.providers@.len() - at,
        {
            at = at + 1;
        }
        proof {
            lemma_insert_pos_boundary(s0, provider.sort_index, at as int);
        }
        self.providers.insert(at, ProviderRecord { provider, enabled });
        proof {
            let s1 = self.providers@;
            let p = at as int;
            assert forall|i: int, j: int|
                0 <= i < j < s1.len() implies (#[trigger] s1[i]).provider.sort_index <= (
            #[trigger] s1[j]).provider.sort_index by {
                if i < p && j > p {
                    assert(s1[i] == s0[i] && s1[j] == s0[j - 1]);
                }
                if i > p && j > p {
                    assert(s1[i] == s0[i - 1] && s1[j] == s0[j - 1]);
                }
            }
            assert forall|i: int, j: int|
                0 <= i < j < s1.len() implies !record_is_for(
                #[trigger] s1[i],
                (#[trigger] s1[j]).provider.app_type@,
                s1[j].provider.id@,
            ) by {
                if i == p && j > p {
                    assert(s1[j] == s0[j - 1]);
                    if record_is_for(s1[i], s1[j].provider.app_type@, s1[j].provider.id@) {
                        assert(record_is_for(
                            s0[j - 1],
                            self.providers@[p].provider.app_type@,
                            self.providers@[p].provider.id@,
                        ));
                    }
                } else if j == p && i < p {
                    if record_is_for(s1[i], s1[j].provider.app_type@, s1[j].provider.id@) {
                        assert(record_is_for(
                            s0[i],
                            self.providers@[p].provider.app_type@,
                            self.providers@[p].provider.id@,
                        ));
                    }
                } else if i < p && j > p {
                    assert(s1[i] == s0[i] && s1[j] == s0[j - 1]);
                } else if i > p && j > p {
                    assert(s1[i] == s0[i - 1] && s1[j] == s0[j - 1]);
                }
            }
        }
        true
    }

    /// The providers of one app type in priority order; with `enabled_only`,
    /// the failover candidates among them.
    fn providers_matching(&self, app_type: &str, enabled_only: bool) -> (v: Vec<Provider>)
        ensures
            v@ == providers_for(self.providers@, app_type@, enabled_only),
    {
        let mut v: Vec<Provider> = Vec::new();
        let mut i: usize = 0;
        while i < self.providers.len()
            invariant
                i <= self.providers@.len(),
                v@ == providers_for(self.providers@.take(i as int), app_type@, enabled_only),
            decreases self.providers@.len() - i,
        {
            let r = &self.providers[i];
            proof {
                assert(self.providers@.take(i + 1).drop_last() =~= self.providers@.take(i as int));
                assert(self.providers@.take(i + 1).last() == self.providers@[i as int]);
            }
            if str_eq(r.provider.app_type.as_str(), app_type) && (!enabled_only || r.enabled) {
                v.push(r.provider.clone());
            }
            i = i + 1;
        }
        proof {
            assert(self.providers@.take(self.providers@.len() as int) =~= self.providers@);
        }
        v
    }

    /// All providers configured for an app type, ascending by `sort_index`.
    pub fn get_all_providers(&self, app_type: &str) -> (v: Vec<Provider>)
        ensures
            v@ == providers_for(self.providers@, app_type@, false),
    {
        self.providers_matching(app_type, false)
    }

    /// The failover candidates for an app type: its providers whose
    /// proxy-target flag is on, ascending by `sort_index`.
    pub fn get_failover_providers(&self, app_type: &str) -> (v: Vec<Provider>)
        ensures
            v@ == providers_for(self.providers@, app_type@, true),
    {
        self.providers_matching(app_type, true)
    }

    /// Looks a provider up by its key.
    pub fn get_provider_by_id(&self, id: &str, app_type: &str) -> (r: Option<Provider>)
        requires
            self.wf(),
        ensures
            match r {
                Some(p) => self.has_provider(app_type@, id@) && p == self.provider_record(
                    app_type@,
                    id@,
                ).provider,
                None => !self.has_provider(app_type@, id@),
            },
    {
        match self.find_provider_index(id, app_type) {
            Some(i) => {
                proof {
                    lemma_provider_witness(*self, i as int, app_type@, id@);
                }
                Some(self.providers[i].provider.clone())
            },
            None => None,
        }
    }

    /// Turns a provider's proxy-target flag on or off; reports whether the
    /// provider was found.
    pub fn set_proxy_target(&mut self, id: &str, app_type: &str, enabled: bool) -> (found: bool)
        requires
            old(self).wf(),
        ensures
            final(self).wf(),
            found == old(self).has_provider(app_type@, id@),
            !found ==> *final(self) == *old(self),
            found ==> exists|i: int|
                0 <= i < old(self).providers@.len() && record_is_for(
                    #[trigger] old(self).providers@[i],
                    app_type@,
                    id@,
                ) && final(self).providers@ == old(self).providers@.update(
                    i,
                    (ProviderRecord { provider: old(self).providers@[i].provider, enabled }),
                ),
            found ==> final(self).has_provider(app_type@, id@) && final(self).provider_record(
                app_type@,
                id@,
            ) == (ProviderRecord {
                provider: old(self).provider_record(app_type@, id@).provider,
                enabled,
            }),
            forall|oapp: Seq<char>, oid: Seq<char>|
                !(oapp == app_type@ && oid == id@) ==> #[trigger] final(self).has_provider(
                    oapp,
                    oid,
                ) == old(self).has_provider(oapp, oid) && (old(self).has_provider(oapp, oid)
                    ==> final(self).provider_record(oapp, oid) == old(self).provider_record(
                    oapp,
                    oid,
                )),
            final(self).current@ == old(self).current@,
            final(self).config == old(self).config,
            final(self).health@ == old(self).health@,
    {
        match self.find_provider_index(id, app_type) {
            Some(i) => {
                let provider = self.providers[i].provider.clone();
                self.providers.set(i, ProviderRecord { provider, enabled });
                proof {
                    let s0 = old(self).providers@;
                    let s1 = self.providers@;
                    let p = i as int;
                    assert forall|a: int, b: int|
                        0 <= a < b < s1.len() implies (#[trigger] s1[a]).provider.sort_index <= (
                    #[trigger] s1[b]).provider.sort_index by {
                        assert(s1[a].provider == s0[a].provider && s1[b].provider == s0[b].provider);
                    }
                    assert forall|a: int, b: int|
                        0 <= a < b < s1.len() implies !record_is_for(
                        #[trigger] s1[a],
                        (#[trigger] s1[b]).provider.app_type@,
                        s1[b].provider.id@,
                    ) by {
                        assert(s1[a].provider == s0[a].provider && s1[b].provider == s0[b].provider);
                        assert(!record_is_for(s0[a], s0[b].provider.app_type@, s0[b].provider.id@));
                    }
                    lemma_provider_witness(*old(self), p, app_type@, id@);
                    lemma_provider_witness(*self, p, app_type@, id@);
                    assert forall|oapp: Seq<char>, oid: Seq<char>|
                        !(oapp == app_type@ && oid == id@) implies #[trigger] self.has_provider(
                        oapp,
                        oid,
                    ) == old(self).has_provider(oapp, oid) && (old(self).has_provider(oapp, oid)
                        ==> self.provider_record(oapp, oid) == old(self).provider_record(
                        oapp,
                        oid,
                    )) by {
                        if old(self).has_provider(oapp, oid) {
                            let w = choose|j: int|
                                0 <= j < s0.len() && record_is_for(#[trigger] s0[j], oapp, oid);
                            assert(s1[w] == s0[w]);
                            lemma_provider_witness(*old(self), w, oapp, oid);
                            lemma_provider_witness(*self, w, oapp, oid);
                        }
                        if self.has_provider(oapp, oid) {
                            let w = choose|j: int|
                                0 <= j < s1.len() && record_is_for(#[trigger] s1[j], oapp, oid);
                            assert(s1[w] == s0[w]);
                            lemma_provider_witness(*old(self), w, oapp, oid);
                        }
                    }
                }
                true
            },
            None => false,
        }
    }

    /// The provider id marked current for an app type, if one is set.
    #[verifier::loop_isolation(false)]
    pub fn get_current_provider(&self, app_type: &str) -> (r: Option<String>)
        requires
            self.wf(),
        ensures
            match r {
                Some(id) => self.has_current(app_type@) && id@ == self.spec_current(app_type@),
                None => !self.has_current(app_type@),
            },
    {
        let mut i: usize = 0;
        while i < self.current.len()
            invariant
                i <= self.current@.len(),
                forall|j: int| 0 <= j < i ==> (#[trigger] self.current@[j]).app_type@ != app_type@,
            decreases self.current@.len() - i,
        {
            let r = &self.current[i];
            if str_eq(r.app_type.as_str(), app_type) {
                proof {
                    lemma_current_witness(self.current@, i as int, app_type@);
                }
                return Some(r.provider_id.clone());
            }
            i = i + 1;
        }
        None
    }

    /// Marks a provider current for an app type, replacing any earlier
    /// marker for that app type.
    #[verifier::loop_isolation(false)]
    pub fn set_current_provider(&mut self, app_type: &str, provider_id: &str)
        requires
            old(self).wf(),
        ensures
            final(self).wf(),
            final(self).has_current(app_type@),
            final(self).spec_current(app_type@) == provider_id@,
            forall|other: Seq<char>|
                other != app_type@ ==> #[trigger] final(self).has_current(other) == old(
                    self,
                ).has_current(other) && (old(self).has_current(other) ==> final(self).spec_current(
                    other,
                ) == old(self).spec_current(other)),
            final(self).providers@ == old(self).providers@,
            final(self).config == old(self).config,
            final(self).health@ == old(self).health@,
    {
        let rec = CurrentRecord {
            app_type: String::from_str(app_type),
            provider_id: String::from_str(provider_id),
        };
        let mut i: usize = 0;
        while i < self.current.len()
            invariant
                i <= self.current@.len(),
                forall|j: int| 0 <= j < i ==> (#[trigger] self.current@[j]).app_type@ != app_type@,
                rec.app_type@ == app_type@,
                rec.provider_id@ == provider_id@,
                *self == *old(self),
            decreases self.current@.len() - i,
        {
            if str_eq(self.current[i].app_type.as_str(), app_type) {
                self.current.set(i, rec);
                proof {
                    let s0 = old(self).current@;
                    let s1 = self.current@;
                    let p = i as int;
                    assert(s0[p].app_type@ == app_type@);
                    assert forall|a: int, b: int|
                        0 <= a < b < s1.len() implies (#[trigger] s1[a]).app_type@ != (
                    #[trigger] s1[b]).app_type@ by {
                        if a != p && b != p {
                            assert(s1[a] == s0[a] && s1[b] == s0[b]);
                        } else if a == p {
                            assert(s1[b] == s0[b]);
                            assert(s0[p].app_type@ != s0[b].app_type@);
                        } else {
                            assert(s1[a] == s0[a]);
                            assert(s0[a].app_type@ != s0[p].app_type@);
                        }
                    }
                    lemma_current_witness(s1, p, app_type@);
                    assert forall|other: Seq<char>|
                        other != app_type@ implies #[trigger] self.has_current(other) == old(
                        self,
                    ).has_current(other) && (old(self).has_current(other)
                        ==> self.spec_current(other) == old(self).spec_current(other)) by {
                        assert forall|j: int|
                            0 <= j < s0.len() && (#[trigger] s0[j]).app_type@ == other implies s1[j]
                            == s0[j] by {}
                        assert forall|j: int|
                            0 <= j < s1.len() && (#[trigger] s1[j]).app_type@ == other implies s1[j]
                            == s0[j] by {}
                        if old(self).has_current(other) {
                            let w = choose|j: int|
                                0 <= j < s0.len() && (#[trigger] s0[j]).app_type@ == other;
                            lemma_current_witness(s1, w, other);
                            lemma_current_witness(s0, w, other);
                        }
                        if self.has_current(other) {
                            let w = choose|j: int|
                                0 <= j < s1.len() && (#[trigger] s1[j]).app_type@ == other;
                            lemma_current_witness(s0, w, other);
                        }
                    }
                }
                return ;
            }
            i = i + 1;
        }
        self.current.push(rec);
        proof {
            let s0 = old(self).current@;
            let s1 = self.current@;
            let p = s0.len() as int;
            assert forall|a: int, b: int|
                0 <= a < b < s1.len() implies (#[trigger] s1[a]).app_type@ != (
            #[trigger] s1[b]).app_type@ by {
                if b != p {
                    assert(s1[a] == s0[a] && s1[b] == s0[b]);
                }
            }
            lemma_current_witness(s1, p, app_type@);
            assert forall|other: Seq<char>|
                other != app_type@ implies #[trigger] self.has_current(other) == old(
                self,
            ).has_current(other) && (old(self).has_current(other) ==> self.spec_current(other)
                == old(self).spec_current(other)) by {
                if old(self).has_current(other) {
                    let w = choose|j: int| 0 <= j < s0.len() && (#[trigger] s0[j]).app_type@ == other;
                    lemma_current_witness(s1, w, other);
                    lemma_current_witness(s0, w, other);
                }
                if self.has_current(other) {
                    let w = choose|j: int| 0 <= j < s1.len() && (#[trigger] s1[j]).app_type@ == other;
                    lemma_current_witness(s0, w, other);
                }
            }
        }
    }

    /// The stored circuit-breaker configuration, or the default while none
    /// has been stored.
    pub fn get_circuit_breaker_config(&self) -> (c: CircuitBreakerConfig)
        ensures
            c == self.spec_config(),
    {
        match self.config {
            Some(c) => c,
            None => CircuitBreakerConfig::default(),
        }
    }

    /// Stores the circuit-breaker configuration. Breakers created earlier
    /// keep the snapshot they were created under.
    pub fn update_circuit_breaker_config(&mut self, config: CircuitBreakerConfig)
        requires
            old(self).wf(),
        ensures
            final(self).wf(),
            final(self).config == Some(config),
            final(self).providers@ == old(self).providers@,
            final(self).current@ == old(self).current@,
            final(self).health@ == old(self).health@,
    {
        self.config = Some(config);
    }

    /// Reads a provider's persisted health; the zero row while none has
    /// been recorded.
    #[verifier::loop_isolation(false)]
    pub fn get_provider_health(&self, id: &str, app_type: &str) -> (h: ProviderHealth)
        requires
            self.wf(),
        ensures
            h == self.spec_health(id@, app_type@),
    {
        let mut i: usize = 0;
        while i < self.health.len()
            invariant
                i <= self.health@.len(),
                forall|j: int|
                    0 <= j < i ==> !health_is_for(#[trigger] self.health@[j], id@, app_type@),
            decreases self.health@.len() - i,
        {
            let r = &self.health[i];
            if str_eq(r.provider_id.as_str(), id) && str_eq(r.app_type.as_str(), app_type) {
                proof {
                    lemma_health_witness(self.health@, i as int, id@, app_type@);
                }
                return r.health.clone();
            }
            i = i + 1;
        }
        ProviderHealth::unrecorded()
    }

    /// The health row after one recorded outcome: a success clears the
    /// failure count and the error text, a failure counts up and keeps the
    /// message; either stamps the time.
    pub open spec fn health_after(
        old_health: ProviderHealth,
        success: bool,
        error_msg: Option<String>,
        now_ms: u64,
    ) -> ProviderHealth {
        if success {
            ProviderHealth { consecutive_failures: 0, last_error: None, last_checked_ms: now_ms }
        } else {
            ProviderHealth {
                consecutive_failures: saturating_inc(old_health.consecutive_failures),
                last_error: error_msg,
                last_checked_ms: now_ms,
            }
        }
    }

    /// Persists one request outcome into the provider's health row,
    /// creating the row on the first recorded outcome.
    #[verifier::loop_isolation(false)]
    pub fn update_provider_health(
        &mut self,
        id: &str,
        app_type: &str,
        success: bool,
        error_msg: Option<String>,
        now_ms: u64,
    )
        requires
            old(self).wf(),
        ensures
            final(self).wf(),
            final(self).has_health(id@, app_type@),
            final(self).spec_health(id@, app_type@) == Database::health_after(
                old(self).spec_health(id@, app_type@),
                success,
                error_msg,
                now_ms,
            ),
            forall|oid: Seq<char>, oapp: Seq<char>|
                !(oid == id@ && oapp == app_type@) ==> #[trigger] final(self).has_health(oid, oapp)
                    == old(self).has_health(oid, oapp) && final(self).spec_health(oid, oapp) == old(
                    self,
                ).spec_health(oid, oapp),
            final(self).providers@ == old(self).providers@,
            final(self).current@ == old(self).current@,
            final(self).config == old(self).config,
    {
        let mut i: usize = 0;
        let mut found: Option<usize> = None;
        while i < self.health.len()
            invariant
                i <= self.health@.len(),
                *self == *old(self),
                match found {
                    Some(f) => f < i && health_is_for(self.health@[f as int], id@, app_type@),
                    None => forall|j: int|
                        0 <= j < i ==> !health_is_for(#[trigger] self.health@[j], id@, app_type@),
                },
            decreases self.health@.len() - i,
        {
            if found.is_none() {
                let r = &self.health[i];
                if str_eq(r.provider_id.as_str(), id) && str_eq(r.app_type.as_str(), app_type) {
                    found = Some(i);
                }
            }
            i = i + 1;
        }
        let old_failures: u32 = match found {
            Some(f) => {
                proof {
                    lemma_health_witness(self.health@, f as int, id@, app_type@);
                }
                self.health[f].health.consecutive_failures
            },
            None => 0,
        };
        let new_health = if success {
            ProviderHealth { consecutive_failures: 0, last_error: None, last_checked_ms: now_ms }
        } else {
            let bumped = if old_failures < u32::MAX {
                old_failures + 1
            } else {
                old_failures
            };
            ProviderHealth {
                consecutive_failures: bumped,
                last_error: error_msg,
                last_checked_ms: now_ms,
            }
        };
        let rec = HealthRecord {
            provider_id: String::from_str(id),
            app_type: String::from_str(app_type),
            health: new_health,
        };
        match found {
            Some(f) => {
                self.health.set(f, rec);
                proof {
                    lemma_health_replace(old(self).health@, self.health@, f as int, id@, app_type@);
                }
            },
            None => {
                self.health.push(rec);
                proof {
                    lemma_health_append(old(self).health@, self.health@, id@, app_type@);
                }
            },
        }
    }

    /// Clears a provider's persisted failure count and error text, keeping
    /// the last-checked stamp; a provider without a row stays without one.
    #[verifier::loop_isolation(false)]
    pub fn reset_provider_health(&mut self, id: &str, app_type: &str)
        requires
            old(self).wf(),
        ensures
            final(self).wf(),
            final(self).spec_health(id@, app_type@).consecutive_failures == 0,
            final(self).spec_health(id@, app_type@).last_error is None,
            forall|oid: Seq<char>, oapp: Seq<char>|
                !(oid == id@ && oapp == app_type@) ==> #[trigger] final(self).has_health(oid, oapp)
                    == old(self).has_health(oid, oapp) && final(self).spec_health(oid, oapp) == old(
                    self,
                ).spec_health(oid, oapp),
            final(self).providers@ == old(self).providers@,
            final(self).current@ == old(self).current@,
            final(self).config == old(self).config,
    {
        let mut i: usize = 0;
        while i < self.health.len()
            invariant
                i <= self.health@.len(),
                *self == *old(self),
                forall|j: int|
                    0 <= j < i ==> !health_is_for(#[trigger] self.health@[j], id@, app_type@),
            decreases self.health@.len() - i,
        {
            let r = &self.health[i];
            if str_eq(r.provider_id.as_str(), id) && str_eq(r.app_type.as_str(), app_type) {
                let rec = HealthRecord {
                    provider_id: String::from_str(id),
                    app_type: String::from_str(app_type),
                    health: ProviderHealth {
                        consecutive_failures: 0,
                        last_error: None,
                        last_checked_ms: r.health.last_checked_ms,
                    },
                };
                self.health.set(i, rec);
                proof {
                    lemma_health_replace(old(self).health@, self.health@, i as int, id@, app_type@);
                }
                return ;
            }
            i = i + 1;
        }
    }
}

/// After replacing the row at the unique index holding the key, the lookup
/// of that key answers with the new row and every other lookup is
/// undisturbed.
proof fn lemma_health_replace(
    s0: Seq<HealthRecord>,
    s1: Seq<HealthRecord>,
    p: int,
    id: Seq<char>,
    app_type: Seq<char>,
)
    requires
        health_unique(s0),
        0 <= p < s0.len(),
        health_is_for(s0[p], id, app_type),
        s1 == s0.update(p, s1[p]),
        health_is_for(s1[p], id, app_type),
    ensures
        health_unique(s1),
        seq_has_health(s1, id, app_type),
        seq_health(s1, id, app_type) == s1[p].health,
        forall|oid: Seq<char>, oapp: Seq<char>|
            !(oid == id && oapp == app_type) ==> #[trigger] seq_has_health(s1, oid, oapp)
                == seq_has_health(s0, oid, oapp) && (seq_has_health(s0, oid, oapp) ==> seq_health(
                s1,
                oid,
                oapp,
            ) == seq_health(s0, oid, oapp)),
{
    assert forall|a: int, b: int|
        0 <= a < b < s1.len() implies !health_is_for(
        #[trigger] s1[a],
        (#[trigger] s1[b]).provider_id@,
        s1[b].app_type@,
    ) by {
        if a != p && b != p {
            assert(s1[a] == s0[a] && s1[b] == s0[b]);
        } else if a == p {
            assert(s1[b] == s0[b]);
            if health_is_for(s1[a], s1[b].provider_id@, s1[b].app_type@) {
                assert(health_is_for(s0[p], s0[b].provider_id@, s0[b].app_type@));
            }
        } else {
            assert(s1[a] == s0[a]);
            if health_is_for(s1[a], s1[b].provider_id@, s1[b].app_type@) {
                assert(health_is_for(s0[a], s0[p].provider_id@, s0[p].app_type@));
            }
        }
    }
    lemma_health_witness(s1, p, id, app_type);
    assert forall|oid: Seq<char>, oapp: Seq<char>|
        !(oid == id && oapp == app_type) implies #[trigger] seq_has_health(s1, oid, oapp)
        == seq_has_health(s0, oid, oapp) && (seq_has_health(s0, oid, oapp) ==> seq_health(
        s1,
        oid,
        oapp,
    ) == seq_health(s0, oid, oapp)) by {
        if seq_has_health(s0, oid, oapp) {
            let w = choose|j: int| 0 <= j < s0.len() && health_is_for(#[trigger] s0[j], oid, oapp);
            assert(s1[w] == s0[w]);
            lemma_health_witness(s1, w, oid, oapp);
            lemma_health_witness(s0, w, oid, oapp);
        }
        if seq_has_health(s1, oid, oapp) {
            let w = choose|j: int| 0 <= j < s1.len() && health_is_for(#[trigger] s1[j], oid, oapp);
            assert(s1[w] == s0[w]);
            lemma_health_witness(s0, w, oid, oapp);
        }
    }
}

/// After appending a row for a key that had none, the lookup of that key
/// answers with the new row and every other lookup is undisturbed.
proof fn lemma_health_append(
    s0: Seq<HealthRecord>,
    s1: Seq<HealthRecord>,
    id: Seq<char>,
    app_type: Seq<char>,
)
    requires
        health_unique(s0),
        forall|j: int| 0 <= j < s0.len() ==> !health_is_for(#[trigger] s0[j], id, app_type),
        s1 == s0.push(s1.last()),
        health_is_for(s1.last(), id, app_type),
    ensures
        health_unique(s1),
        seq_has_health(s1, id, app_type),
        seq_health(s1, id, app_type) == s1.last().health,
        forall|oid: Seq<char>, oapp: Seq<char>|
            !(oid == id && oapp == app_type) ==> #[trigger] seq_has_health(s1, oid, oapp)
                == seq_has_health(s0, oid, oapp) && (seq_has_health(s0, oid, oapp) ==> seq_health(
                s1,
                oid,
                oapp,
            ) == seq_health(s0, oid, oapp)),
{
    let p = s0.len() as int;
    assert forall|a: int, b: int|
        0 <= a < b < s1.len() implies !health_is_for(
        #[trigger] s1[a],
        (#[trigger] s1[b]).provider_id@,
        s1[b].app_type@,
    ) by {
        if b != p {
            assert(s1[a] == s0[a] && s1[b] == s0[b]);
        } else {
            assert(s1[a] == s0[a]);
        }
    }
    lemma_health_witness(s1, p, id, app_type);
    assert forall|oid: Seq<char>, oapp: Seq<char>|
        !(oid == id && oapp == app_type) implies #[trigger] seq_has_health(s1, oid, oapp)
        == seq_has_health(s0, oid, oapp) && (seq_has_health(s0, oid, oapp) ==> seq_health(
        s1,
        oid,
        oapp,
    ) == seq_health(s0, oid, oapp)) by {
        if seq_has_health(s0, oid, oapp) {
            let w = choose|j: int| 0 <= j < s0.len() && health_is_for(#[trigger] s0[j], oid, oapp);
            assert(s1[w] == s0[w]);
            lemma_health_witness(s1, w, oid, oapp);
            lemma_health_witness(s0, w, oid, oapp);
        }
        if seq_has_health(s1, oid, oapp) {
            let w = choose|j: int| 0 <= j < s1.len() && health_is_for(#[trigger] s1[j], oid, oapp);
            assert(s1[w] == s0[w]);
            lemma_health_witness(s0, w, oid, oapp);
        }
    }
}

} // verus!
