//! The command-layer operations that compute: listing healthy proxy
//! targets, switching a target's flag, clearing persisted health, and
//! classifying and recording connectivity tests. The caller owns the
//! transport that exposes these to a frontend and the HTTP client that
//! performs the tests.

use crate::breaker::saturating_inc;
use crate::provider::Provider;
use crate::store::{providers_for, Database};
use crate::text::{spec_decimal, u64_to_decimal};
use vstd::prelude::*;
use vstd::string::StringExecFns;

verus! {

/// The providers of the list that currently count as healthy: those whose
/// persisted failure count is below the failure threshold in force.
pub open spec fn filter_healthy(
    db: Database,
    providers: Seq<Provider>,
    app_type: Seq<char>,
) -> Seq<Provider>
    decreases providers.len(),
{
    if providers.len() == 0 {
        Seq::empty()
    } else {
        let rest = filter_healthy(db, providers.drop_last(), app_type);
        let p = providers.last();
        if db.spec_health(p.id@, app_type).consecutive_failures
            < db.spec_config().failure_threshold {
            rest.push(p)
        } else {
            rest
        }
    }
}

/// The proxy-target list shown to an operator: all providers of the app
/// type whose persisted failure count has not reached the threshold — a
/// provider without a recorded outcome counts as healthy.
#[verifier::loop_isolation(false)]
pub fn get_proxy_targets(db: &Database, app_type: &str) -> (v: Vec<Provider>)
    requires
        db.wf(),
    ensures
        v@ == filter_healthy(*db, providers_for(db.providers@, app_type@, false), app_type@),
{
    let all = db.get_all_providers(app_type);
    let config = db.get_circuit_breaker_config();
    let mut v: Vec<Provider> = Vec::new();
    let ghost pv = all@;
    let mut i: usize = 0;
    while i < all.len()
        invariant
            i <= pv.len(),
            all@ == pv,
            v@ == filter_healthy(*db, pv.take(i as int), app_type@),
        decreases pv.len() - i,
    {
        proof {
            assert(pv.take(i + 1).drop_last() =~= pv.take(i as int));
            assert(pv.take(i + 1).last() == pv[i as int]);
        }
        let health = db.get_provider_health(all[i].id.as_str(), app_type);
        if health.consecutive_failures < config.failure_threshold {
            v.push(all[i].clone());
        }
        i = i + 1;
    }
    proof {
        assert(pv.take(pv.len() as int) =~= pv);
    }
    v
}

/// Turns a provider's proxy-target flag on or off; disabling also clears
/// the provider's persisted failure count and error text. Answers whether
/// the provider was found.
pub fn set_proxy_target(
    db: &mut Database,
    provider_id: &str,
    app_type: &str,
    enabled: bool,
) -> (found: bool)
    requires
        old(db).wf(),
    ensures
        final(db).wf(),
        found == old(db).has_provider(app_type@, provider_id@),
        found ==> final(db).has_provider(app_type@, provider_id@) && final(db).provider_record(
            app_type@,
            provider_id@,
        ).enabled == enabled && final(db).provider_record(app_type@, provider_id@).provider == old(
            db,
        ).provider_record(app_type@, provider_id@).provider,
        forall|oapp: Seq<char>, oid: Seq<char>|
            !(oapp == app_type@ && oid == provider_id@)
                ==> #[trigger] final(db).has_provider(oapp, oid)
                == old(db).has_provider(oapp, oid)
                && (old(db).has_provider(oapp, oid)
                ==> final(db).provider_record(oapp, oid)
                == old(db).provider_record(oapp, oid)),
        !enabled ==> final(db).spec_health(provider_id@, app_type@).consecutive_failures == 0
            && final(db).spec_health(provider_id@, app_type@).last_error is None,
        enabled ==> final(db).health@ == old(db).health@,
        forall|oid: Seq<char>, oapp: Seq<char>|
            !(oid == provider_id@ && oapp == app_type@)
                ==> #[trigger] final(db).has_health(oid, oapp)
                == old(db).has_health(oid, oapp)
                && (old(db).has_health(oid, oapp)
                ==> final(db).spec_health(oid, oapp)
                == old(db).spec_health(oid, oapp)),
        final(db).current@ == old(db).current@,
        final(db).config == old(db).config,
    {
        let found = db.set_proxy_target(provider_id, app_type, enabled);
        let ghost db_mid = *db;
        if !enabled {
            db.reset_provider_health(provider_id, app_type);
        }
        proof {
            assert(db.providers@ == db_mid.providers@);
            assert forall|oapp: Seq<char>, oid: Seq<char>|
                !(oapp == app_type@ && oid == provider_id@) implies #[trigger] db.has_provider(
                oapp,
                oid,
            ) == old(db).has_provider(oapp, oid) && (old(db).has_provider(oapp, oid)
                ==> db.provider_record(oapp, oid) == old(db).provider_record(oapp, oid)) by {
                assert(db_mid.has_provider(oapp, oid) == old(db).has_provider(oapp, oid));
                assert(db.has_provider(oapp, oid) == db_mid.has_provider(oapp, oid));
                if old(db).has_provider(oapp, oid) {
                    assert(db.provider_record(oapp, oid) == db_mid.provider_record(oapp, oid));
                }
            }
            if found {
                assert(db.has_provider(app_type@, provider_id@) == db_mid.has_provider(
                    app_type@,
                    provider_id@,
                ));
                assert(db.provider_record(app_type@, provider_id@) == db_mid.provider_record(
                    app_type@,
                    provider_id@,
                ));
            }
        }
        found
    }

/// Resets a provider's persisted health to a successful row stamped
/// `now_ms`, the operator's manual circuit recovery. Breaker state lives in
/// memory with the router and is reset there.
pub fn reset_circuit_breaker(db: &mut Database, provider_id: &str, app_type: &str, now_ms: u64)
    requires
        old(db).wf(),
    ensures
        final(db).wf(),
        final(db).spec_health(provider_id@, app_type@) == Database::health_after(
            old(db).spec_health(provider_id@, app_type@),
            true,
            None,
            now_ms,
        ),
        forall|oid: Seq<char>, oapp: Seq<char>|
            !(oid == provider_id@ && oapp == app_type@)
                ==> #[trigger] final(db).has_health(oid, oapp)
                == old(db).has_health(oid, oapp)
                && final(db).spec_health(oid, oapp)
                == old(db).spec_health(oid, oapp),
        final(db).providers@ == old(db).providers@,
        final(db).current@ == old(db).current@,
        final(db).config == old(db).config,
{
    db.update_provider_health(provider_id, app_type, true, None, now_ms);
}

/// Whether a connectivity test's HTTP status counts as a passed test: a
/// success status outright, and any client error — authentication,
/// rate-limit or request-format problems still prove the connection works.
pub open spec fn spec_connection_test_success(status: u16) -> bool {
    (200 <= status && status < 300) || (400 <= status && status < 500)
}

/// Classifies a connectivity test's HTTP status.
pub fn connection_test_success(status: u16) -> (r: bool)
    ensures
        r == spec_connection_test_success(status),
{
    (200 <= status && status < 300) || (400 <= status && status < 500)
}

/// The error text persisted for a failed connectivity test.
pub open spec fn server_error_message(status: u16) -> Seq<char> {
    "Server error: "@ + spec_decimal(status as nat)
}

/// Classifies a connectivity test's HTTP status and persists the outcome
/// into the provider's health row: a passed test as a success, a failed one
/// as a failure carrying the status in its error text.
pub fn record_connection_test(
    db: &mut Database,
    provider_id: &str,
    app_type: &str,
    status: u16,
    now_ms: u64,
) -> (ok: bool)
    requires
        old(db).wf(),
    ensures
        final(db).wf(),
        ok == spec_connection_test_success(status),
        ok ==> final(db).spec_health(provider_id@, app_type@) == Database::health_after(
            old(db).spec_health(provider_id@, app_type@),
            true,
            None,
            now_ms,
        ),
        !ok ==> ({
            let h = final(db).spec_health(provider_id@, app_type@);
            &&& h.consecutive_failures == saturating_inc(
                old(db).spec_health(provider_id@, app_type@).consecutive_failures,
            )
            &&& h.last_checked_ms == now_ms
            &&& (h.last_error matches Some(m) && m@ == server_error_message(status))
        }),
        forall|oid: Seq<char>, oapp: Seq<char>|
            !(oid == provider_id@ && oapp == app_type@)
                ==> #[trigger] final(db).has_health(oid, oapp)
                == old(db).has_health(oid, oapp)
                && final(db).spec_health(oid, oapp)
                == old(db).spec_health(oid, oapp),
        final(db).providers@ == old(db).providers@,
        final(db).current@ == old(db).current@,
        final(db).config == old(db).config,
{
    let ok = connection_test_success(status);
    if ok {
        db.update_provider_health(provider_id, app_type, true, None, now_ms);
    } else {
        let msg = String::from_str("Server error: ").concat(
            u64_to_decimal(status as u64).as_str(),
        );
        db.update_provider_health(provider_id, app_type, false, Some(msg), now_ms);
    }
    ok
}

} // verus!
