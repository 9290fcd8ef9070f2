//! What execution reads of a validated manifest.

use vstd::prelude::*;

use crate::json::Json;
use crate::table::Table;
use crate::text::same_text;

verus! {

/// What an action may do with a resource.
#[derive(Clone, Copy, Debug, PartialEq, Eq, Structural)]
pub enum Capability {
    Read,
    Write,
}

/// How an action runs.
#[derive(Clone, Copy, Debug, PartialEq, Eq, Structural)]
pub enum Mode {
    Foreground,
    Background,
}

/// A declared action.
#[derive(Debug)]
pub struct Action {
    pub mode: Mode,
    pub connections: Vec<String>,
    pub resources: Table<Vec<Capability>>,
    pub parameters: Option<Json>,
}

/// A declared resource.
#[derive(Debug)]
pub struct Resource {
    pub key: Option<String>,
    pub schema: Json,
}

/// A declared provider connection.
#[derive(Debug)]
pub struct Connection {
    pub scopes: Vec<String>,
}

/// A validated manifest.
#[derive(Debug)]
pub struct Manifest {
    pub name: String,
    pub version: String,
    pub actions: Table<Action>,
    pub resources: Table<Resource>,
    pub connections: Table<Connection>,
    pub configuration: Option<Json>,
}

/// `name` is one of the texts.
pub open spec fn lists(texts: Seq<String>, name: Seq<char>) -> bool {
    exists|index: int| 0 <= index < texts.len() && (#[trigger] texts[index])@ == name
}

impl Action {
    /// The action may use `resource` in this way.
    pub open spec fn permits(&self, resource: Seq<char>, capability: Capability) -> bool {
        self.resources@.dom().contains(resource) && self.resources@[resource]@.contains(capability)
    }

    /// The action reads some resource.
    pub open spec fn reads(&self) -> bool {
        exists|index: int|
            0 <= index < self.resources.entries@.len() && (#[trigger] self.resources.entries@[index]).1@.contains(
                Capability::Read,
            )
    }

    /// Whether the action may use `resource` in this way.
    pub fn allows(&self, resource: &str, capability: Capability) -> (allowed: bool)
        requires
            self.resources.wf(),
        ensures
            allowed == self.permits(resource@, capability),
    {
        match self.resources.get(resource) {
            Some(capabilities) => has_capability(capabilities, capability),
            None => false,
        }
    }

    /// Whether the action reads some resource.
    pub fn has_reader(&self) -> (reader: bool)
        ensures
            reader == self.reads(),
    {
        let mut index: usize = 0;
        while index < self.resources.entries.len()
            invariant
                index <= self.resources.entries.len(),
                forall|i: int|
                    0 <= i < index ==> !(#[trigger] self.resources.entries@[i]).1@.contains(Capability::Read),
            decreases self.resources.entries.len() - index,
        {
            if has_capability(&self.resources.entries[index].1, Capability::Read) {
                return true;
            }
            index += 1;
        }
        false
    }
}

/// Whether `capability` is among the capabilities.
pub fn has_capability(capabilities: &Vec<Capability>, capability: Capability) -> (found: bool)
    ensures
        found == capabilities@.contains(capability),
{
    let mut index: usize = 0;
    while index < capabilities.len()
        invariant
            index <= capabilities.len(),
            forall|i: int| 0 <= i < index ==> capabilities@[i] != capability,
        decreases capabilities.len() - index,
    {
        if capabilities[index] == capability {
            assert(capabilities@[index as int] == capability);
            return true;
        }
        index += 1;
    }
    false
}

/// Whether `name` is one of the texts.
pub fn listed(texts: &Vec<String>, name: &str) -> (found: bool)
    ensures
        found == lists(texts@, name@),
{
    let mut index: usize = 0;
    while index < texts.len()
        invariant
            index <= texts.len(),
            forall|i: int| 0 <= i < index ==> (#[trigger] texts@[i])@ != name@,
        decreases texts.len() - index,
    {
        if same_text(texts[index].as_str(), name) {
            return true;
        }
        index += 1;
    }
    false
}

impl Manifest {
    /// The tables are in order, and every action uses declared resources and
    /// connections only.
    pub open spec fn wf(&self) -> bool {
        &&& self.actions.wf() && self.resources.wf() && self.connections.wf()
        &&& forall|name: Seq<char>| #[trigger] self.actions@.dom().contains(name) ==> self.declares(self.actions@[name])
    }

    /// The action uses declared resources and connections only.
    pub open spec fn declares(&self, action: Action) -> bool {
        &&& action.resources.wf()
        &&& forall|resource: Seq<char>| #[trigger]
            action.resources@.dom().contains(resource) ==> self.resources@.dom().contains(resource)
        &&& forall|index: int|
            0 <= index < action.connections@.len() ==> self.connections@.dom().contains(
                (#[trigger] action.connections@[index])@,
            )
    }

    fn admits(&self, action: &Action) -> (admitted: bool)
        requires
            self.resources.wf(),
            self.connections.wf(),
        ensures
            admitted == self.declares(*action),
    {
        if !action.resources.is_ordered() {
            return false;
        }
        let mut index: usize = 0;
        while index < action.resources.entries.len()
            invariant
                index <= action.resources.entries.len(),
                self.resources.wf(),
                action.resources.wf(),
                forall|i: int|
                    0 <= i < index ==> self.resources@.dom().contains((#[trigger] action.resources.entries@[i]).0@),
            decreases action.resources.entries.len() - index,
        {
            if !self.resources.contains(action.resources.entries[index].0.as_str()) {
                proof {
                    action.resources.lemma_entry(index as int);
                }
                return false;
            }
            index += 1;
        }
        proof {
            assert forall|resource: Seq<char>| #[trigger]
                action.resources@.dom().contains(resource) implies self.resources@.dom().contains(resource) by {
                let at = action.resources.names().index_of(resource);
                assert(action.resources.names()[at] == resource);
                assert(action.resources.entries@[at].0@ == resource);
            }
        }
        let mut place: usize = 0;
        while place < action.connections.len()
            invariant
                place <= action.connections.len(),
                self.connections.wf(),
                forall|i: int|
                    0 <= i < place ==> self.connections@.dom().contains((#[trigger] action.connections@[i])@),
            decreases action.connections.len() - place,
        {
            if !self.connections.contains(action.connections[place].as_str()) {
                return false;
            }
            place += 1;
        }
        true
    }

    /// Whether the tables are in order, and every action uses declared resources and
    /// connections only.
    pub fn is_consistent(&self) -> (consistent: bool)
        ensures
            consistent == self.wf(),
    {
        if !self.actions.is_ordered() || !self.resources.is_ordered() || !self.connections.is_ordered() {
            return false;
        }
        let mut index: usize = 0;
        while index < self.actions.entries.len()
            invariant
                index <= self.actions.entries.len(),
                self.actions.wf() && self.resources.wf() && self.connections.wf(),
                forall|i: int| 0 <= i < index ==> self.declares((#[trigger] self.actions.entries@[i]).1),
            decreases self.actions.entries.len() - index,
        {
            proof {
                self.actions.lemma_entry(index as int);
            }
            if !self.admits(&self.actions.entries[index].1) {
                return false;
            }
            index += 1;
        }
        proof {
            assert forall|name: Seq<char>| #[trigger] self.actions@.dom().contains(name) implies self.declares(
                self.actions@[name],
            ) by {
                let at = self.actions.names().index_of(name);
                assert(self.actions.names()[at] == name);
                self.actions.lemma_entry(at);
                assert(self.declares(self.actions.entries@[at].1));
            }
        }
        true
    }
}

/// An action reads exactly where it is permitted to read some resource.
pub proof fn law_readers(action: Action)
    requires
        action.resources.wf(),
    ensures
        action.reads() <==> exists|name: Seq<char>| #[trigger] action.permits(name, Capability::Read),
{
    if action.reads() {
        let index = choose|index: int|
            0 <= index < action.resources.entries@.len() && (#[trigger] action.resources.entries@[index]).1@.contains(
                Capability::Read,
            );
        action.resources.lemma_entry(index);
        assert(action.permits(action.resources.entries@[index].0@, Capability::Read));
    }
    if exists|name: Seq<char>| #[trigger] action.permits(name, Capability::Read) {
        let name = choose|name: Seq<char>| #[trigger] action.permits(name, Capability::Read);
        let index = choose|index: int| 0 <= index < action.resources.names().len() && action.resources.names()[index] == name;
        action.resources.lemma_entry(index);
        assert(action.resources.entries@[index].1@.contains(Capability::Read));
    }
}

/// What is permitted is what is declared of the resource: nothing is permitted of a resource
/// that is not declared.
pub proof fn law_permissions(action: Action, resource: Seq<char>, capability: Capability)
    ensures
        !action.resources@.dom().contains(resource) ==> !action.permits(resource, capability),
        action.resources@.dom().contains(resource) ==> (action.permits(resource, capability) <==> exists|i: int|
            0 <= i < action.resources@[resource]@.len() && #[trigger] action.resources@[resource]@[i] == capability),
{
}

} // verus!
