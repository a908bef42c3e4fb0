//! The deployment registry: the domain-keyed routing table. The lifecycle
//! reactor is its sole writer; the dispatcher reads snapshots of it.

use vstd::prelude::*;
use crate::assoc::{AssocMap, lemma_take_step};
use crate::deployment::{Deployment, DeploymentModel, spec_is_cron};

verus! {

/// Routing table from hostname to the deployment bound under it; at most
/// one deployment is bound per domain.
pub struct Registry {
    map: AssocMap<Deployment>,
}

impl View for Registry {
    type V = Map<Seq<char>, DeploymentModel>;

    closed spec fn view(&self) -> Map<Seq<char>, DeploymentModel> {
        self.map@
    }
}

impl Registry {
    pub closed spec fn wf(&self) -> bool {
        self.map.wf()
    }

    pub fn new() -> (r: Self)
        ensures
            r.wf(),
            r@ == Map::<Seq<char>, DeploymentModel>::empty(),
    {
        Registry { map: AssocMap::new() }
    }

    /// The deployment bound under a hostname, if any.
    pub fn lookup<'a>(&'a self, host: &String) -> (r: Option<&'a Deployment>)
        requires
            self.wf(),
        ensures
            match r {
                Some(d) => self@.contains_key(host@) && d@ == self@[host@],
                None => !self@.contains_key(host@),
            },
    {
        self.map.get(host)
    }

    /// Binds one domain, replacing any prior binding.
    pub fn bind(&mut self, domain: String, d: Deployment)
        requires
            old(self).wf(),
        ensures
            final(self).wf(),
            final(self)@ == old(self)@.insert(domain@, d@),
    {
        self.map.insert(domain, d);
    }

    /// Binds the deployment under every listed domain. Each binding is
    /// individually atomic in the running system; this records their joint
    /// outcome.
    pub fn bind_all(&mut self, domains: &Vec<String>, d: &Deployment)
        requires
            old(self).wf(),
        ensures
            final(self).wf(),
            forall|k: Seq<char>|
                #![trigger final(self)@.contains_key(k)]
                #![trigger old(self)@.contains_key(k)]
                #![trigger domains.deep_view().contains(k)]
                final(self)@.contains_key(k) == (old(self)@.contains_key(k)
                    || domains.deep_view().contains(k)),
            forall|k: Seq<char>|
                #![trigger final(self)@[k]]
                #![trigger domains.deep_view().contains(k)]
                domains.deep_view().contains(k) ==> final(self)@.contains_key(k)
                    && final(self)@[k] == d@,
            forall|k: Seq<char>|
                #![trigger final(self)@[k]]
                #![trigger old(self)@[k]]
                #![trigger domains.deep_view().contains(k)]
                old(self)@.contains_key(k) && !domains.deep_view().contains(k)
                    ==> final(self)@.contains_key(k) && final(self)@[k] == old(self)@[k],
    {
        let mut i: usize = 0;
        while i < domains.len()
            invariant
                i <= domains.len(),
                self.wf(),
                forall|k: Seq<char>|
                    self@.contains_key(k) == (old(self)@.contains_key(k)
                        || domains.deep_view().take(i as int).contains(k)),
                forall|k: Seq<char>|
                    domains.deep_view().take(i as int).contains(k) ==> self@.contains_key(k)
                        && self@[k] == d@,
                forall|k: Seq<char>|
                    old(self)@.contains_key(k) && !domains.deep_view().take(i as int).contains(k)
                        ==> self@.contains_key(k) && self@[k] == old(self)@[k],
            decreases domains.len() - i,
        {
            self.bind(domains[i].clone(), d.duplicate());
            i = i + 1;
            proof {
                lemma_take_step(domains.deep_view(), i as int);
            }
        }
        proof {
            assert(domains.deep_view().take(domains@.len() as int) =~= domains.deep_view());
        }
    }

    /// Removes the binding of every listed domain.
    pub fn unbind_all(&mut self, domains: &Vec<String>)
        requires
            old(self).wf(),
        ensures
            final(self).wf(),
            forall|k: Seq<char>|
                #![trigger final(self)@.contains_key(k)]
                #![trigger old(self)@.contains_key(k)]
                #![trigger domains.deep_view().contains(k)]
                final(self)@.contains_key(k) == (old(self)@.contains_key(k)
                    && !domains.deep_view().contains(k)),
            forall|k: Seq<char>|
                #![trigger final(self)@[k]]
                #![trigger old(self)@[k]]
                final(self)@.contains_key(k) ==> final(self)@[k] == old(self)@[k],
    {
        let mut i: usize = 0;
        while i < domains.len()
            invariant
                i <= domains.len(),
                self.wf(),
                forall|k: Seq<char>|
                    self@.contains_key(k) == (old(self)@.contains_key(k)
                        && !domains.deep_view().take(i as int).contains(k)),
                forall|k: Seq<char>| self@.contains_key(k) ==> self@[k] == old(self)@[k],
            decreases domains.len() - i,
        {
            let ghost prev = self@;
            self.map.remove(&domains[i]);
            i = i + 1;
            proof {
                lemma_take_step(domains.deep_view(), i as int);
                let dv = domains.deep_view();
                assert(self@ == prev.remove(dv[i - 1]));
                assert forall|k: Seq<char>| #![trigger self@.contains_key(k)]
                    self@.contains_key(k) == (old(self)@.contains_key(k) && !dv.take(
                        i as int,
                    ).contains(k)) by {
                    assert(self@.contains_key(k) == (prev.contains_key(k) && k != dv[i - 1]));
                }
            }
        }
        proof {
            assert(domains.deep_view().take(domains@.len() as int) =~= domains.deep_view());
        }
    }

    /// The deployment with the given id, under whichever domain it is
    /// bound, if any.
    pub fn find_by_id<'a>(&'a self, id: &String) -> (r: Option<&'a Deployment>)
        requires
            self.wf(),
        ensures
            match r {
                Some(d) => d@.id == id@ && exists|k: Seq<char>|
                    self@.contains_key(k) && self@[k] == d@,
                None => forall|k: Seq<char>|
                    self@.contains_key(k) ==> (#[trigger] self@[k]).id != id@,
            },
    {
        let n = self.map.len();
        let mut i: usize = 0;
        while i < n
            invariant
                n == self.map.spec_len(),
                i <= n,
                self.wf(),
                forall|j: int| 0 <= j < i ==> (#[trigger] self.map.pairs()[j]).1.id != id@,
            decreases n - i,
        {
            let d = self.map.value_at(i);
            if d.id == *id {
                proof {
                    self.map.lemma_entry_in_map(i as int);
                    let k0 = self.map.pairs()[i as int].0;
                    assert(self@.contains_key(k0) && self@[k0] == d@);
                }
                return Some(d);
            }
            i = i + 1;
        }
        proof {
            assert forall|k: Seq<char>| self@.contains_key(k) implies (#[trigger] self@[k]).id
                != id@ by {
                self.map.lemma_key_has_entry(k);
                let j = choose|j: int|
                    0 <= j < self.map.spec_len() && (#[trigger] self.map.pairs()[j]).0 == k;
                self.map.lemma_entry_in_map(j);
            }
        }
        None
    }

    /// The registered cron deployments, one per deployment id: the seeding
    /// pass over a registry snapshot at startup. A deployment bound under
    /// many domains appears once.
    pub fn cron_deployments(&self) -> (r: Vec<Deployment>)
        requires
            self.wf(),
        ensures
            forall|j: int|
                0 <= j < r@.len() ==> spec_is_cron((#[trigger] r@[j])@) && exists|k: Seq<char>|
                    self@.contains_key(k) && self@[k] == r@[j]@,
            forall|x: int, y: int| 0 <= x < y < r@.len() ==> r@[x]@.id != r@[y]@.id,
            forall|k: Seq<char>|
                self@.contains_key(k) && spec_is_cron(#[trigger] self@[k]) ==> exists|j: int|
                    0 <= j < r@.len() && r@[j]@.id == self@[k].id,
    {
        let n = self.map.len();
        let mut r: Vec<Deployment> = Vec::new();
        let mut i: usize = 0;
        while i < n
            invariant
                n == self.map.spec_len(),
                i <= n,
                self.wf(),
                forall|j: int|
                    0 <= j < r@.len() ==> spec_is_cron((#[trigger] r@[j])@) && exists|k: Seq<char>|
                        self@.contains_key(k) && self@[k] == r@[j]@,
                forall|x: int, y: int| 0 <= x < y < r@.len() ==> r@[x]@.id != r@[y]@.id,
                forall|x: int|
                    0 <= x < i && spec_is_cron((#[trigger] self.map.pairs()[x]).1) ==> exists|
                        j: int,
                    | 0 <= j < r@.len() && r@[j]@.id == self.map.pairs()[x].1.id,
            decreases n - i,
        {
            let ghost r_prev = r@;
            let d = self.map.value_at(i);
            let is_cron = d.should_run_cron();
            let absent = !has_id(&r, &d.id);
            if is_cron && absent {
                proof {
                    self.map.lemma_entry_in_map(i as int);
                }
                r.push(d.duplicate());
            }
            proof {
                let k0 = self.map.pairs()[i as int].0;
                assert forall|j: int|
                    0 <= j < r@.len() implies spec_is_cron((#[trigger] r@[j])@) && exists|
                    k: Seq<char>,
                | self@.contains_key(k) && self@[k] == r@[j]@ by {
                    if j < r_prev.len() {
                        assert(r@[j] == r_prev[j]);
                    } else {
                        assert(r@[j]@ == self.map.pairs()[i as int].1);
                        assert(self@.contains_key(k0) && self@[k0] == r@[j]@);
                    }
                }
                assert forall|x: int, y: int| 0 <= x < y < r@.len() implies r@[x]@.id
                    != r@[y]@.id by {
                    assert(r@[x] == r_prev[x]);
                    if y < r_prev.len() {
                        assert(r@[y] == r_prev[y]);
                    } else {
                        assert(r@[y]@.id == d@.id);
                    }
                }
            }
            i = i + 1;
            proof {
                assert forall|x: int|
                    0 <= x < i && spec_is_cron((#[trigger] self.map.pairs()[x]).1) implies exists|
                    j: int,
                | 0 <= j < r@.len() && r@[j]@.id == self.map.pairs()[x].1.id by {
                    if x < i - 1 {
                        let j = choose|j: int|
                            0 <= j < r_prev.len() && (#[trigger] r_prev[j])@.id
                                == self.map.pairs()[x].1.id;
                        assert(r@[j] == r_prev[j]);
                    } else {
                        if is_cron && absent {
                            assert(r@[r@.len() - 1]@.id == self.map.pairs()[x].1.id);
                        } else {
                            let j = choose|j: int|
                                0 <= j < r_prev.len() && (#[trigger] r_prev[j])@.id == d@.id;
                            assert(r@[j] == r_prev[j]);
                        }
                    }
                }
            }
        }
        proof {
            assert forall|k: Seq<char>|
                self@.contains_key(k) && spec_is_cron(#[trigger] self@[k]) implies exists|j: int|
                0 <= j < r@.len() && r@[j]@.id == self@[k].id by {
                self.map.lemma_key_has_entry(k);
                let x = choose|x: int|
                    0 <= x < self.map.spec_len() && (#[trigger] self.map.pairs()[x]).0 == k;
                self.map.lemma_entry_in_map(x);
            }
        }
        r
    }
}

/// Whether some deployment in the vector carries the id.
fn has_id(v: &Vec<Deployment>, id: &String) -> (r: bool)
    ensures
        r == exists|j: int| 0 <= j < v@.len() && (#[trigger] v@[j])@.id == id@,
{
    let mut i: usize = 0;
    while i < v.len()
        invariant
            i <= v@.len(),
            forall|j: int| 0 <= j < i ==> (#[trigger] v@[j])@.id != id@,
        decreases v@.len() - i,
    {
        if v[i].id == *id {
            return true;
        }
        i = i + 1;
    }
    false
}

} // verus!
