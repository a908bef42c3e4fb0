//! The lifecycle reactor: the single consumer of control-plane events. It
//! filters events by cron region, then applies deploys, undeploys and
//! promotions to the node. Artifact downloads and removals are disk work;
//! the surrounding process performs them between the planning and the
//! applying step and reports their outcome.

use vstd::prelude::*;
use crate::deployment::{Deployment, effective_domains, spec_is_cron};
use crate::node::{Counters, Node, bumped};
use crate::pool::bump;

verus! {

/// The kind of a control-plane message, carried out of band by the bus.
#[derive(Clone, Copy, PartialEq, Eq, Structural, Debug)]
pub enum EventKind {
    Deploy,
    Undeploy,
    Promote,
    Unknown,
}

/// The decoded payload of a control-plane message: the full deployment
/// record, and for promotions the id of the deployment being replaced.
pub struct Payload {
    pub deployment: Deployment,
    pub previous_deployment_id: Option<String>,
}

/// What the reactor decides to do with an event.
#[derive(Clone, Copy, PartialEq, Eq, Structural, Debug)]
pub enum EventPlan {
    /// Dropped: wrong cron region, or an unknown kind.
    Skip,
    /// Download the artifacts, then apply the deploy with the outcome.
    Deploy,
    /// Remove the artifacts, then apply the undeploy with the outcome.
    Undeploy,
    /// Apply the promotion; no disk work is needed.
    Promote,
}

/// An event is dropped when it concerns a cron owned by another region,
/// unless it is an undeploy: the cron might have been hosted here before.
pub open spec fn spec_skips_region(kind: EventKind, d: crate::deployment::DeploymentModel, region: Seq<char>) -> bool {
    spec_is_cron(d) && d.cron_region != region && kind != EventKind::Undeploy
}

/// The reactor's decision for an event.
pub open spec fn spec_plan(kind: EventKind, d: crate::deployment::DeploymentModel, region: Seq<char>) -> EventPlan {
    if spec_skips_region(kind, d, region) {
        EventPlan::Skip
    } else {
        match kind {
            EventKind::Deploy => EventPlan::Deploy,
            EventKind::Undeploy => EventPlan::Undeploy,
            EventKind::Promote => EventPlan::Promote,
            EventKind::Unknown => EventPlan::Skip,
        }
    }
}

/// Decides what to do with an event. A `Skip` applies no mutation at all:
/// the registry, the artifact store, the crons and the pool stay as they
/// are, because the apply functions are never reached.
pub fn plan_event(kind: EventKind, p: &Payload, region: &String) -> (r: EventPlan)
    ensures
        r == spec_plan(kind, p.deployment@, region@),
{
    if p.deployment.cron.is_some() && !(p.deployment.cron_region == *region) && !(
    kind == EventKind::Undeploy) {
        return EventPlan::Skip;
    }
    match kind {
        EventKind::Deploy => EventPlan::Deploy,
        EventKind::Undeploy => EventPlan::Undeploy,
        EventKind::Promote => EventPlan::Promote,
        EventKind::Unknown => EventPlan::Skip,
    }
}

/// An event for a cron owned elsewhere is dropped (undeploys excepted), so
/// it changes no state: no plan but `Skip` is ever produced for it.
pub proof fn lemma_region_filter(kind: EventKind, d: crate::deployment::DeploymentModel, region: Seq<char>)
    requires
        spec_is_cron(d),
        d.cron_region != region,
        kind != EventKind::Undeploy,
    ensures
        spec_plan(kind, d, region) == EventPlan::Skip,
{
}

impl Node {
    /// Applies a deploy whose artifact download has finished. On failure
    /// only the error counter moves; on success the deployment is bound
    /// under every effective domain and, when it is a cron, marked for
    /// registration. The result says whether the surrounding process must
    /// register the cron.
    pub fn apply_deploy(&mut self, d: &Deployment, downloaded: bool) -> (register_cron: bool)
        requires
            old(self).wf(),
        ensures
            final(self).wf(),
            final(self).region == old(self).region,
            final(self).root_domain == old(self).root_domain,
            final(self).pool == old(self).pool,
            final(self).activity == old(self).activity,
            final(self).request_rows == old(self).request_rows,
            final(self).log_rows == old(self).log_rows,
            register_cron == (downloaded && spec_is_cron(d@)),
            !downloaded ==> {
                &&& final(self).counters == (Counters {
                    deployments_error: bump(old(self).counters.deployments_error),
                    ..old(self).counters
                })
                &&& final(self).registry@ == old(self).registry@
                &&& final(self).artifacts@ == old(self).artifacts@
                &&& final(self).crons@ == old(self).crons@
            },
            downloaded ==> {
                &&& final(self).counters == (Counters {
                    deployments_success: bump(old(self).counters.deployments_success),
                    ..old(self).counters
                })
                &&& final(self).artifacts@ == old(self).artifacts@.insert(d@.id, true)
                &&& forall|k: Seq<char>|
                    #[trigger] final(self).registry@.contains_key(k) == (old(self).registry@.contains_key(k) || effective_domains(
                        d@,
                        old(self).root_domain@,
                    ).contains(k))
                &&& forall|k: Seq<char>|
                    effective_domains(d@, old(self).root_domain@).contains(k) ==> final(self).registry@[k] == d@
                &&& forall|k: Seq<char>|
                    old(self).registry@.contains_key(k) && !effective_domains(
                        d@,
                        old(self).root_domain@,
                    ).contains(k) ==> final(self).registry@[k] == old(self).registry@[k]
                &&& final(self).crons@ == if spec_is_cron(d@) {
                    old(self).crons@.insert(d@.id, true)
                } else {
                    old(self).crons@
                }
            },
    {
        if !downloaded {
            self.counters.deployments_error = bumped(self.counters.deployments_error);
            return false;
        }
        self.counters.deployments_success = bumped(self.counters.deployments_success);
        self.artifacts.insert(d.id.clone(), true);
        let domains = d.get_domains(&self.root_domain);
        self.registry.bind_all(&domains, d);
        proof {
            let eff = effective_domains(d@, old(self).root_domain@);
            assert(old(self).root_domain@ == self.root_domain@);
            assert(domains.deep_view().to_set() == eff);
            assert forall|k: Seq<char>|
                #![trigger domains.deep_view().contains(k)]
                #![trigger eff.contains(k)]
                domains.deep_view().contains(k) == eff.contains(k) by {
                assert(eff.contains(k) == domains.deep_view().to_set().contains(k));
            }
            assert forall|k: Seq<char>|
                #[trigger] self.registry@.contains_key(k) == (old(self).registry@.contains_key(k)
                    || eff.contains(k)) by {
                assert(domains.deep_view().contains(k) == eff.contains(k));
            }
            assert forall|k: Seq<char>| #[trigger] eff.contains(k)
                implies self.registry@.contains_key(k) && self.registry@[k] == d@ by {
                assert(domains.deep_view().contains(k));
            }
            assert forall|k: Seq<char>|
                old(self).registry@.contains_key(k) && !(#[trigger] eff.contains(k))
                    implies self.registry@.contains_key(k) && self.registry@[k] == old(self).registry@[k] by {
                assert(!domains.deep_view().contains(k));
            }
        }
        let register_cron = d.should_run_cron();
        if register_cron {
            self.crons.insert(d.id.clone(), true);
        }
        register_cron
    }

    /// Applies an undeploy whose artifact removal has finished. On failure
    /// only the error counter moves. On success the effective domains are
    /// unbound, the worker (if any) is removed, and a cron deployment is
    /// marked for deregistration. The result says whether a worker was
    /// terminated; the surrounding process then sends it the terminate
    /// reason.
    pub fn apply_undeploy(&mut self, d: &Deployment, removed: bool) -> (had_worker: bool)
        requires
            old(self).wf(),
        ensures
            final(self).wf(),
            final(self).region == old(self).region,
            final(self).root_domain == old(self).root_domain,
            final(self).activity == old(self).activity,
            final(self).request_rows == old(self).request_rows,
            final(self).log_rows == old(self).log_rows,
            !removed ==> {
                &&& final(self).counters == (Counters {
                    undeployments_error: bump(old(self).counters.undeployments_error),
                    ..old(self).counters
                })
                &&& final(self).registry@ == old(self).registry@
                &&& final(self).artifacts@ == old(self).artifacts@
                &&& final(self).crons@ == old(self).crons@
                &&& final(self).pool == old(self).pool
                &&& had_worker == false
            },
            removed ==> {
                &&& final(self).counters == (Counters {
                    undeployments_success: bump(old(self).counters.undeployments_success),
                    ..old(self).counters
                })
                &&& final(self).artifacts@ == old(self).artifacts@.remove(d@.id)
                &&& forall|k: Seq<char>|
                    #[trigger] final(self).registry@.contains_key(k) == (old(self).registry@.contains_key(k) && !effective_domains(
                        d@,
                        old(self).root_domain@,
                    ).contains(k))
                &&& forall|k: Seq<char>|
                    final(self).registry@.contains_key(k) ==> final(self).registry@[k] == old(self).registry@[k]
                &&& !final(self).pool.has_worker(d@.id)
                &&& forall|k: Seq<char>|
                    k != d@.id ==> final(self).pool.has_worker(k) == old(self).pool.has_worker(k)
                &&& had_worker == old(self).pool.has_worker(d@.id)
                &&& final(self).crons@ == if spec_is_cron(d@) {
                    old(self).crons@.remove(d@.id)
                } else {
                    old(self).crons@
                }
            },
    {
        if !removed {
            self.counters.undeployments_error = bumped(self.counters.undeployments_error);
            return false;
        }
        self.counters.undeployments_success = bumped(self.counters.undeployments_success);
        self.artifacts.remove(&d.id);
        let domains = d.get_domains(&self.root_domain);
        self.registry.unbind_all(&domains);
        proof {
            let eff = effective_domains(d@, old(self).root_domain@);
            assert(old(self).root_domain@ == self.root_domain@);
            assert(domains.deep_view().to_set() == eff);
            assert forall|k: Seq<char>|
                #![trigger domains.deep_view().contains(k)]
                #![trigger eff.contains(k)]
                domains.deep_view().contains(k) == eff.contains(k) by {
                assert(eff.contains(k) == domains.deep_view().to_set().contains(k));
            }
            assert forall|k: Seq<char>|
                #[trigger] self.registry@.contains_key(k) == (old(self).registry@.contains_key(k)
                    && !eff.contains(k)) by {
                assert(domains.deep_view().contains(k) == eff.contains(k));
            }
        }
        let had_worker = self.pool.terminate(&d.id);
        if d.should_run_cron() {
            self.crons.remove(&d.id);
        }
        had_worker
    }
}

/// The record as it is re-exposed after losing production status.
pub open spec fn unpromoted(p: crate::deployment::DeploymentModel) -> crate::deployment::DeploymentModel {
    crate::deployment::DeploymentModel { is_production: false, ..p }
}

impl Node {
    /// Applies a promotion: the new deployment takes over the production
    /// hostnames of its function. The previously promoted deployment, found
    /// by its id, is unbound from its old effective domains and re-bound,
    /// no longer production, under the domains that status derives; the new
    /// deployment is then bound under its own effective domains, the old
    /// deployment's worker is removed and its cron registration dropped.
    /// The result is the record that lost production status, if one was
    /// found.
    pub fn apply_promote(&mut self, d: &Deployment, previous_id: &String) -> (prev: Option<
        Deployment,
    >)
        requires
            old(self).wf(),
        ensures
            final(self).wf(),
            final(self).region == old(self).region,
            final(self).root_domain == old(self).root_domain,
            final(self).activity == old(self).activity,
            final(self).artifacts == old(self).artifacts,
            final(self).request_rows == old(self).request_rows,
            final(self).log_rows == old(self).log_rows,
            final(self).counters == (Counters {
                promotions: bump(old(self).counters.promotions),
                ..old(self).counters
            }),
            !final(self).pool.has_worker(previous_id@),
            forall|k: Seq<char>|
                k != previous_id@ ==> final(self).pool.has_worker(k) == old(self).pool.has_worker(
                    k,
                ),
            final(self).crons@ == if spec_is_cron(d@) {
                old(self).crons@.remove(previous_id@).insert(d@.id, true)
            } else {
                old(self).crons@.remove(previous_id@)
            },
            forall|k: Seq<char>|
                effective_domains(d@, old(self).root_domain@).contains(k) ==> final(self).registry@.contains_key(k) && final(self).registry@[k] == d@,
            match prev {
                Some(p) => {
                    &&& p@.id == previous_id@
                    &&& exists|k: Seq<char>|
                        old(self).registry@.contains_key(k) && old(self).registry@[k] == p@
                    &&& forall|k: Seq<char>|
                        !effective_domains(d@, old(self).root_domain@).contains(k)
                            && effective_domains(unpromoted(p@), old(self).root_domain@).contains(k) ==> final(self).registry@.contains_key(k) && final(self).registry@[k]
                            == unpromoted(p@)
                    &&& forall|k: Seq<char>|
                        !effective_domains(d@, old(self).root_domain@).contains(k)
                            && !effective_domains(unpromoted(p@), old(self).root_domain@).contains(k) ==> (final(self).registry@.contains_key(k) == (old(self).registry@.contains_key(k) && !effective_domains(
                            p@,
                            old(self).root_domain@,
                        ).contains(k)) && (final(self).registry@.contains_key(k) ==> final(self).registry@[k] == old(self).registry@[k]))
                },
                None => {
                    &&& forall|k: Seq<char>|
                        old(self).registry@.contains_key(k) ==> (#[trigger] old(self).registry@[k]).id != previous_id@
                    &&& forall|k: Seq<char>|
                        #[trigger] final(self).registry@.contains_key(k) == (old(self).registry@.contains_key(k) || effective_domains(
                            d@,
                            old(self).root_domain@,
                        ).contains(k))
                    &&& forall|k: Seq<char>|
                        old(self).registry@.contains_key(k) && !effective_domains(
                            d@,
                            old(self).root_domain@,
                        ).contains(k) ==> final(self).registry@[k] == old(self).registry@[k]
                },
            },
    {
        self.counters.promotions = bumped(self.counters.promotions);
        let prev = match self.registry.find_by_id(previous_id) {
            Some(p) => Some(p.duplicate()),
            None => None,
        };
        let ghost reg0 = self.registry@;
        if let Some(p) = &prev {
            let prev_domains = p.get_domains(&self.root_domain);
            self.registry.unbind_all(&prev_domains);
            let ghost reg1 = self.registry@;
            proof {
                assert forall|k: Seq<char>|
                    #[trigger] reg1.contains_key(k) == (reg0.contains_key(k)
                        && !prev_domains.deep_view().contains(k)) by {}
                assert forall|k: Seq<char>| #[trigger] reg1.contains_key(k) implies reg1[k]
                    == reg0[k] by {}
            }
            let mut unp = p.duplicate();
            unp.is_production = false;
            proof {
                assert(unp@ == unpromoted(p@));
            }
            let new_prev_domains = unp.get_domains(&self.root_domain);
            self.registry.bind_all(&new_prev_domains, &unp);
            proof {
                let effp = effective_domains(p@, old(self).root_domain@);
                let effu = effective_domains(unpromoted(p@), old(self).root_domain@);
                assert(prev_domains.deep_view().to_set() == effp);
                assert(new_prev_domains.deep_view().to_set() == effu);
                assert forall|k: Seq<char>|
                    #![trigger prev_domains.deep_view().contains(k)]
                    #![trigger effp.contains(k)]
                    prev_domains.deep_view().contains(k) == effp.contains(k) by {
                    assert(effp.contains(k) == prev_domains.deep_view().to_set().contains(k));
                }
                assert forall|k: Seq<char>|
                    #![trigger new_prev_domains.deep_view().contains(k)]
                    #![trigger effu.contains(k)]
                    new_prev_domains.deep_view().contains(k) == effu.contains(k) by {
                    assert(effu.contains(k) == new_prev_domains.deep_view().to_set().contains(k));
                }
                assert forall|k: Seq<char>| #[trigger] effu.contains(k)
                    implies self.registry@.contains_key(k) && self.registry@[k] == unpromoted(
                    p@,
                ) by {
                    assert(new_prev_domains.deep_view().contains(k));
                }
                assert forall|k: Seq<char>|
                    !(#[trigger] effu.contains(k)) implies (self.registry@.contains_key(k) == (
                reg0.contains_key(k) && !effp.contains(k)) && (self.registry@.contains_key(k)
                    ==> self.registry@[k] == reg0[k])) by {
                    assert(!new_prev_domains.deep_view().contains(k));
                    assert(self.registry@.contains_key(k) == (reg1.contains_key(k)
                        || new_prev_domains.deep_view().contains(k)));
                    assert(reg1.contains_key(k) ==> self.registry@[k] == reg1[k]);
                    assert(reg1.contains_key(k) == (reg0.contains_key(k)
                        && !prev_domains.deep_view().contains(k)));
                    assert(reg1.contains_key(k) ==> reg1[k] == reg0[k]);
                }
            }
        }
        let ghost reg2 = self.registry@;
        let domains = d.get_domains(&self.root_domain);
        self.registry.bind_all(&domains, d);
        proof {
            let effd = effective_domains(d@, old(self).root_domain@);
            assert(domains.deep_view().to_set() == effd);
            assert forall|k: Seq<char>|
                #![trigger domains.deep_view().contains(k)]
                #![trigger effd.contains(k)]
                domains.deep_view().contains(k) == effd.contains(k) by {
                assert(effd.contains(k) == domains.deep_view().to_set().contains(k));
            }
            assert forall|k: Seq<char>| #[trigger] effd.contains(k)
                implies self.registry@.contains_key(k) && self.registry@[k] == d@ by {
                assert(domains.deep_view().contains(k));
            }
            assert forall|k: Seq<char>|
                !(#[trigger] effd.contains(k)) implies self.registry@.contains_key(k)
                == reg2.contains_key(k) && (self.registry@.contains_key(k) ==> self.registry@[k]
                == reg2[k]) by {
                assert(!domains.deep_view().contains(k));
            }
        }
        self.pool.terminate(previous_id);
        self.crons.remove(previous_id);
        if d.should_run_cron() {
            self.crons.insert(d.id.clone(), true);
        }
        prev
    }
}

} // verus!
