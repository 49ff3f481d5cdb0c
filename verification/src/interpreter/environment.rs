//! A store of environments. An environment has an identifier of its own
//! and names its parent by the parent's identifier; a name that an
//! environment does not hold is looked up along the parents.

use crate::collections::StrMap;
use crate::interpreter::structs::RuntimeValue;
use crate::parser::structs::ASTNode;
use std::collections::HashMap;
use std::sync::Arc;
use uuid::Uuid;
use vstd::pervasive::unreached;
use vstd::prelude::*;

verus! {

/// The parameters of a function: each name with the name of its type.
pub type FnArgs = StrMap<String>;

/// The environments of a program, each under its identifier.
pub struct EnvironmentMap {
    map: HashMap<u128, Environment>,
}

/// An environment: its variables and functions, and the identifier of the
/// environment around it.
pub struct Environment {
    pub id: u128,
    pub parent_id: Option<u128>,
    /// Each variable: whether it is constant, and its value.
    pub variables: StrMap<(bool, RuntimeValue)>,
    /// Each function: its parameters and its body.
    pub functions: StrMap<(FnArgs, Arc<Vec<ASTNode>>)>,
}

impl View for EnvironmentMap {
    type V = Map<u128, Environment>;

    closed spec fn view(&self) -> Map<u128, Environment> {
        self.map@
    }
}

/// `Uuid::new_v4`, as a number (`Uuid::as_u128`): a random identifier.
/// Nothing is known of it.
#[verifier::external_body]
fn fresh_id() -> u128 {
    Uuid::new_v4().as_u128()
}

impl Environment {
    /// An environment without a parent that holds nothing.
    pub fn new(id: u128) -> (r: Self)
        ensures
            r.id == id,
            r.parent_id is None,
            r.variables@ == Map::<Seq<char>, (bool, RuntimeValue)>::empty(),
            r.functions@ == Map::<Seq<char>, (FnArgs, Arc<Vec<ASTNode>>)>::empty(),
    {
        Environment { id, parent_id: None, variables: StrMap::new(), functions: StrMap::new() }
    }

    /// The first environment that holds the variable `variable_id`, from
    /// the environment `id` along its parents.
    pub fn resolve_variable_environment(
        id: u128,
        variable_id: &String,
        env_map: &EnvironmentMap,
    ) -> (r: Option<u128>)
        requires
            env_map.wf(),
            env_map@.contains_key(id),
        ensures
            r == env_map.resolves(id, variable_id@),
            r matches Some(h) ==> env_map@.contains_key(h) && env_map@[h].variables@.contains_key(
                variable_id@,
            ),
    {
        let mut fuel = env_map.map.len();
        let mut at = id;
        while fuel > 0
            invariant
                env_map.wf(),
                env_map@.contains_key(at),
                env_map.holder(at, variable_id@, fuel as nat) == env_map.resolves(
                    id,
                    variable_id@,
                ),
            decreases fuel,
        {
            match env_map.map.get(&at) {
                None => {
                    return None;
                },
                Some(env) => {
                    if env.variables.contains_key(variable_id) {
                        return Some(at);
                    }
                    match env.parent_id {
                        Some(p) => {
                            at = p;
                            fuel = fuel - 1;
                        },
                        None => {
                            return None;
                        },
                    }
                },
            }
        }
        None
    }

    /// Whether the variable `variable_id` is constant, and its value, from
    /// the environment `id` along its parents.
    pub fn resolve_variable(id: u128, variable_id: &String, env_map: &EnvironmentMap) -> (r: (
        bool,
        RuntimeValue,
    ))
        requires
            env_map.wf(),
            env_map@.contains_key(id),
            env_map.resolves(id, variable_id@) is Some,
        ensures
            r == env_map@[env_map.resolves(id, variable_id@)->0].variables@[variable_id@],
    {
        match Self::resolve_variable_environment(id, variable_id, env_map) {
            Some(h) => match env_map.map.get(&h) {
                Some(env) => match env.variables.get(variable_id) {
                    Some(v) => (v.0, v.1.clone()),
                    None => (false, RuntimeValue::Null),
                },
                None => (false, RuntimeValue::Null),
            },
            None => (false, RuntimeValue::Null),
        }
    }

    /// Gives the variable `variable_id` the value `value`, in the first
    /// environment that holds it from `id` along the parents. Where none
    /// holds it nothing changes.
    pub fn assign_variable(
        id: u128,
        variable_id: String,
        env_map: &mut EnvironmentMap,
        value: RuntimeValue,
    )
        requires
            old(env_map).wf(),
            old(env_map)@.contains_key(id),
            old(env_map).resolves(id, variable_id@) matches Some(h) ==> !old(env_map)@[h].variables@[variable_id@].0,
        ensures
            final(env_map).wf(),
            old(env_map).changes(*final(env_map), id, variable_id@, value),
    {
        match Self::resolve_variable_environment(id, &variable_id, env_map) {
            Some(h) => {
                match env_map.map.remove(&h) {
                    Some(env) => {
                        let mut env = env;
                        env.variables.insert(variable_id, (false, value));
                        env_map.map.insert(h, env);
                        assert(final(env_map)@.dom() =~= old(env_map)@.dom());
                    },
                    None => {},
                }
            },
            None => {},
        }
    }

    /// Declares the variable `variable_id` in the environment `id`, with
    /// the value `value`. Where the store has no such environment nothing
    /// changes.
    pub fn declare_variable(
        id: u128,
        variable_id: String,
        env_map: &mut EnvironmentMap,
        value: RuntimeValue,
        is_const: bool,
    )
        requires
            old(env_map).wf(),
        ensures
            final(env_map).wf(),
            old(env_map).puts(*final(env_map), id, variable_id@, (is_const, value)),
    {
        match env_map.map.remove(&id) {
            Some(env) => {
                let mut env = env;
                env.variables.insert(variable_id, (is_const, value));
                env_map.map.insert(id, env);
                assert(final(env_map)@.dom() =~= old(env_map)@.dom());
            },
            None => {
                assert(final(env_map)@ =~= old(env_map)@);
            },
        }
    }
}

impl EnvironmentMap {
    /// The parent of each environment is in the store.
    pub open spec fn wf(&self) -> bool {
        forall|id: u128| #[trigger]
            self@.contains_key(id) ==> match self@[id].parent_id {
                Some(p) => self@.contains_key(p),
                None => true,
            }
    }

    /// The first environment that holds `name`, from `id` along the
    /// parents, among the next `fuel` environments.
    pub open spec fn holder(&self, id: u128, name: Seq<char>, fuel: nat) -> Option<u128>
        decreases fuel,
    {
        if fuel == 0 || !self@.contains_key(id) {
            None
        } else if self@[id].variables@.contains_key(name) {
            Some(id)
        } else {
            match self@[id].parent_id {
                Some(p) => self.holder(p, name, (fuel - 1) as nat),
                None => None,
            }
        }
    }

    /// The first environment that holds `name`, from `id` along the
    /// parents. The lookup follows as many environments as the store has:
    /// parents that lead back to where they came from hold nothing more.
    pub open spec fn resolves(&self, id: u128, name: Seq<char>) -> Option<u128> {
        self.holder(id, name, self@.len())
    }

    /// `later` is `self` but for the environment `id`, which has `entry`
    /// under `name`; where `self` has no such environment, `later` is
    /// `self`.
    pub open spec fn puts(
        &self,
        later: EnvironmentMap,
        id: u128,
        name: Seq<char>,
        entry: (bool, RuntimeValue),
    ) -> bool {
        if self@.contains_key(id) {
            &&& later@.dom() == self@.dom()
            &&& forall|other: u128|
                self@.contains_key(other) && other != id ==> #[trigger] later@[other]
                    == self@[other]
            &&& later@[id].id == self@[id].id
            &&& later@[id].parent_id == self@[id].parent_id
            &&& later@[id].functions == self@[id].functions
            &&& later@[id].variables@ == self@[id].variables@.insert(name, entry)
        } else {
            later@ == self@
        }
    }

    /// `later` is `self` after the assignment of `value` to `name` from
    /// the environment `id`.
    pub open spec fn changes(
        &self,
        later: EnvironmentMap,
        id: u128,
        name: Seq<char>,
        value: RuntimeValue,
    ) -> bool {
        match self.resolves(id, name) {
            Some(h) => self.puts(later, h, name, (false, value)),
            None => later@ == self@,
        }
    }

    /// `later` is `self` with a new environment under `id`, which has the
    /// parent `parent` and holds nothing.
    pub open spec fn adds(&self, later: EnvironmentMap, id: u128, parent: Option<u128>) -> bool {
        &&& later@.dom() == self@.dom().insert(id)
        &&& forall|other: u128|
            self@.contains_key(other) && other != id ==> #[trigger] later@[other] == self@[other]
        &&& later@[id].id == id
        &&& later@[id].parent_id == parent
        &&& later@[id].variables@ == Map::<Seq<char>, (bool, RuntimeValue)>::empty()
        &&& later@[id].functions@ == Map::<Seq<char>, (FnArgs, Arc<Vec<ASTNode>>)>::empty()
    }

    pub fn new() -> (r: Self)
        ensures
            r@ == Map::<u128, Environment>::empty(),
            r.wf(),
    {
        EnvironmentMap { map: HashMap::new() }
    }

    /// Puts a new environment under `id`, in place of the one that the
    /// store has under `id`, if any.
    pub fn add_environment(&mut self, id: u128, parent: Option<u128>)
        requires
            old(self).wf(),
            parent matches Some(p) ==> old(self)@.contains_key(p),
        ensures
            final(self).wf(),
            old(self).adds(*final(self), id, parent),
    {
        let mut env = Environment::new(id);
        env.parent_id = parent;
        self.map.insert(id, env);
        assert(final(self)@.dom() =~= old(self)@.dom().insert(id));
    }

    /// Puts a new environment under an identifier that it makes up, and
    /// gives the identifier.
    pub fn new_environment(&mut self, parent: Option<u128>) -> (id: u128)
        requires
            old(self).wf(),
            parent matches Some(p) ==> old(self)@.contains_key(p),
        ensures
            final(self).wf(),
            old(self).adds(*final(self), id, parent),
    {
        let id = fresh_id();
        self.add_environment(id, parent);
        id
    }

    /// The environment under `uuid`.
    pub fn get_environment_box(&self, uuid: u128) -> (r: &Environment)
        requires
            self@.contains_key(uuid),
        ensures
            *r == self@[uuid],
    {
        match self.map.get(&uuid) {
            Some(env) => env,
            None => unreached(),
        }
    }

    /// Whether the store has an environment under `uuid`.
    pub fn has_environment(&self, uuid: u128) -> (r: bool)
        ensures
            r == self@.contains_key(uuid),
    {
        self.map.contains_key(&uuid)
    }
}

} // verus!
