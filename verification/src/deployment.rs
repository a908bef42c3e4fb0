//! The deployment record: the unit of routing and execution, and the
//! computation of its effective domains.

use vstd::prelude::*;
use vstd::string::StringExecFns;

verus! {

/// Mathematical model of a deployment.
pub struct DeploymentModel {
    pub id: Seq<char>,
    pub function_id: Seq<char>,
    pub function_name: Seq<char>,
    pub assets: Seq<Seq<char>>,
    pub domains: Seq<Seq<char>>,
    pub environment_variables: Seq<(Seq<char>, Seq<char>)>,
    pub memory: u64,
    pub tick_timeout: u64,
    pub total_timeout: u64,
    pub is_production: bool,
    pub cron: Option<Seq<char>>,
    pub cron_region: Seq<char>,
}

/// A versioned, immutable bundle of code, assets, config and limits,
/// addressable by one or more domains.
pub struct Deployment {
    pub id: String,
    pub function_id: String,
    pub function_name: String,
    pub assets: Vec<String>,
    pub domains: Vec<String>,
    pub environment_variables: Vec<(String, String)>,
    pub memory: u64,
    pub tick_timeout: u64,
    pub total_timeout: u64,
    pub is_production: bool,
    pub cron: Option<String>,
    pub cron_region: String,
}

impl View for Deployment {
    type V = DeploymentModel;

    open spec fn view(&self) -> DeploymentModel {
        DeploymentModel {
            id: self.id@,
            function_id: self.function_id@,
            function_name: self.function_name@,
            assets: self.assets.deep_view(),
            domains: self.domains.deep_view(),
            environment_variables: self.environment_variables.deep_view(),
            memory: self.memory,
            tick_timeout: self.tick_timeout,
            total_timeout: self.total_timeout,
            is_production: self.is_production,
            cron: self.cron.deep_view(),
            cron_region: self.cron_region@,
        }
    }
}

/// The hostname a deployment exposes besides its explicit domains: the
/// function name under the root domain when it is in production, its own
/// id under the root domain otherwise.
pub open spec fn derived_domain(d: DeploymentModel, root_domain: Seq<char>) -> Seq<char> {
    (if d.is_production {
        d.function_name
    } else {
        d.id
    }) + seq!['.'] + root_domain
}

/// The full set of hostnames that route to a deployment.
pub open spec fn effective_domains(d: DeploymentModel, root_domain: Seq<char>) -> Set<Seq<char>> {
    d.domains.to_set().insert(derived_domain(d, root_domain))
}

/// A deployment scheduled by a cron expression; such a deployment is not
/// HTTP-callable.
pub open spec fn spec_is_cron(d: DeploymentModel) -> bool {
    d.cron is Some
}

impl Deployment {
    /// Whether this node must register the deployment with the cron
    /// scheduler.
    pub fn should_run_cron(&self) -> (r: bool)
        ensures
            r == spec_is_cron(self@),
    {
        self.cron.is_some()
    }

    /// The effective domains, as a vector: the explicit domains followed by
    /// the derived hostname.
    pub fn get_domains(&self, root_domain: &String) -> (r: Vec<String>)
        ensures
            r.deep_view() == self@.domains.push(derived_domain(self@, root_domain@)),
            r.deep_view().to_set() == effective_domains(self@, root_domain@),
    {
        let mut r = clone_strings(&self.domains);
        let base = if self.is_production {
            self.function_name.clone()
        } else {
            self.id.clone()
        };
        proof {
            reveal_strlit(".");
            assert("."@ =~= seq!['.']);
        }
        let derived = base.concat(".").concat(root_domain.as_str());
        r.push(derived);
        proof {
            assert(r.deep_view() =~= self@.domains.push(derived_domain(self@, root_domain@)));
            assert(r.deep_view().to_set() =~= effective_domains(self@, root_domain@)) by {
                lemma_push_to_set(self@.domains, derived_domain(self@, root_domain@));
            }
        }
        r
    }

    /// An owned copy of the record, equal to the original in the model.
    /// Deployments are shared snapshots: lifecycle events replace whole
    /// records, they never mutate one in place.
    pub fn duplicate(&self) -> (r: Deployment)
        ensures
            r@ == self@,
    {
        let r = Deployment {
            id: self.id.clone(),
            function_id: self.function_id.clone(),
            function_name: self.function_name.clone(),
            assets: clone_strings(&self.assets),
            domains: clone_strings(&self.domains),
            environment_variables: clone_pairs(&self.environment_variables),
            memory: self.memory,
            tick_timeout: self.tick_timeout,
            total_timeout: self.total_timeout,
            is_production: self.is_production,
            cron: match &self.cron {
                Some(c) => Some(c.clone()),
                None => None,
            },
            cron_region: self.cron_region.clone(),
        };
        proof {
            assert(r@ == self@);
        }
        r
    }
}

proof fn lemma_push_to_set(s: Seq<Seq<char>>, x: Seq<char>)
    ensures
        s.push(x).to_set() == s.to_set().insert(x),
{
    assert(s.push(x).to_set() =~= s.to_set().insert(x)) by {
        assert forall|y: Seq<char>| s.push(x).to_set().contains(y) implies s.to_set().insert(
            x,
        ).contains(y) by {
            let i = choose|i: int| 0 <= i < s.push(x).len() && s.push(x)[i] == y;
            if i < s.len() {
                assert(s[i] == y);
            }
        }
        assert forall|y: Seq<char>| s.to_set().insert(x).contains(y) implies s.push(
            x,
        ).to_set().contains(y) by {
            if y == x {
                assert(s.push(x)[s.len() as int] == y);
            } else {
                let i = choose|i: int| 0 <= i < s.len() && s[i] == y;
                assert(s.push(x)[i] == y);
            }
        }
    }
}

/// An owned copy of a vector of strings, equal in the model.
pub fn clone_strings(v: &Vec<String>) -> (r: Vec<String>)
    ensures
        r.deep_view() == v.deep_view(),
{
    let mut r: Vec<String> = Vec::new();
    let mut i: usize = 0;
    while i < v.len()
        invariant
            i <= v.len(),
            r@.len() == i,
            forall|k: int| 0 <= k < i ==> r@[k]@ == v@[k]@,
        decreases v.len() - i,
    {
        r.push(v[i].clone());
        i = i + 1;
    }
    proof {
        assert(r.deep_view() =~= v.deep_view());
    }
    r
}

/// An owned copy of a vector of string pairs, equal in the model.
pub fn clone_pairs(v: &Vec<(String, String)>) -> (r: Vec<(String, String)>)
    ensures
        r.deep_view() == v.deep_view(),
{
    let mut r: Vec<(String, String)> = Vec::new();
    let mut i: usize = 0;
    while i < v.len()
        invariant
            i <= v.len(),
            r@.len() == i,
            forall|k: int| 0 <= k < i ==> r@[k].0@ == v@[k].0@ && r@[k].1@ == v@[k].1@,
        decreases v.len() - i,
    {
        let p = (v[i].0.clone(), v[i].1.clone());
        r.push(p);
        i = i + 1;
    }
    proof {
        assert(r.deep_view() =~= v.deep_view());
    }
    r
}

} // verus!
