//! Assembling a manifest document from build declarations.

use vstd::prelude::*;
use vstd::string::*;

use crate::component::{finding_views, ComponentError, Fault, Finding, FindingView, MAX_COMPONENT_BYTES, MAX_PARTS};
use crate::envelope::Rejection;
use crate::json::{
    find_member, law_lookup_finds_the_first, law_put_member_changes_one, lemma_array, lemma_object, lemma_take_others,
    lookup, member, members_of, put_member, take_member, values_of, with_member, without_member, Json, JsonValue,
};
use crate::table::{ascending, lemma_ascending_once, Table};
use crate::text::{same_text, text_before};

verus! {

/// The members of a JSON object.
pub type Members = Seq<(Seq<char>, JsonValue)>;

/// One declaration section: its length in bytes, and the declarations in it or
/// the findings with which the fragment parser refused it.
pub struct Fragment {
    pub size: usize,
    pub values: Result<Vec<Json>, Vec<Finding>>,
}

/// What a declaration section holds.
pub ghost struct FragmentView {
    pub size: int,
    pub values: Result<Seq<JsonValue>, Seq<FindingView>>,
}

impl View for Fragment {
    type V = FragmentView;

    open spec fn view(&self) -> FragmentView {
        FragmentView {
            size: self.size as int,
            values: match self.values {
                Ok(values) => Ok(values_of(values@)),
                Err(findings) => Err(finding_views(findings@)),
            },
        }
    }
}

/// The declarations read so far.
pub ghost struct Declared {
    pub extension: Option<Members>,
    pub actions: Map<Seq<char>, Members>,
    pub resources: Map<Seq<char>, Members>,
    pub connections: Map<Seq<char>, Members>,
}

impl Declared {
    /// No declaration at all.
    pub open spec fn none() -> Declared {
        Declared { extension: None, actions: Map::empty(), resources: Map::empty(), connections: Map::empty() }
    }
}

/// The declarations after one more.
pub open spec fn declare(declared: Declared, declaration: JsonValue) -> Result<Declared, Rejection> {
    match declaration {
        JsonValue::Object(members) => match lookup(members, "kind"@) {
            Some(JsonValue::Text(kind)) => {
                let part = without_member(members, "kind"@);
                if kind == "extension"@ {
                    if declared.extension is Some {
                        Err(Rejection::ExtensionDuplicated)
                    } else {
                        Ok(Declared { extension: Some(part), ..declared })
                    }
                } else {
                    match lookup(part, "name"@) {
                        Some(JsonValue::Text(name)) => {
                            let named = without_member(part, "name"@);
                            if kind == "action"@ {
                                if declared.actions.dom().contains(name) {
                                    Err(Rejection::NameDuplicated)
                                } else {
                                    Ok(Declared { actions: declared.actions.insert(name, named), ..declared })
                                }
                            } else if kind == "resource"@ {
                                if declared.resources.dom().contains(name) {
                                    Err(Rejection::NameDuplicated)
                                } else {
                                    Ok(Declared { resources: declared.resources.insert(name, named), ..declared })
                                }
                            } else if kind == "connection"@ {
                                if declared.connections.dom().contains(name) {
                                    Err(Rejection::NameDuplicated)
                                } else {
                                    Ok(Declared { connections: declared.connections.insert(name, named), ..declared })
                                }
                            } else {
                                Err(Rejection::KindUnknown)
                            }
                        },
                        _ => Err(Rejection::NameRequired),
                    }
                }
            },
            _ => Err(Rejection::KindRequired),
        },
        _ => Err(Rejection::DeclarationNotObject),
    }
}

/// The declarations after a list of more, of which `count` were read before.
pub open spec fn declare_all(declared: Declared, count: int, declarations: Seq<JsonValue>) -> Result<Declared, Rejection>
    decreases declarations.len(),
{
    if declarations.len() == 0 {
        Ok(declared)
    } else if count >= MAX_PARTS {
        Err(Rejection::TooManyDeclarations)
    } else {
        match declare(declared, declarations[0]) {
            Ok(next) => declare_all(next, count + 1, declarations.drop_first()),
            Err(rejection) => Err(rejection),
        }
    }
}

/// The declarations after the sections `fragments`, where `count` declarations
/// and `total` bytes were read before.
pub open spec fn declare_fragments(declared: Declared, count: int, total: int, fragments: Seq<FragmentView>) -> Result<
    Declared,
    Fault,
>
    decreases fragments.len(),
{
    if fragments.len() == 0 {
        Ok(declared)
    } else if total + fragments[0].size > MAX_COMPONENT_BYTES {
        Err(Fault::Rejected(Rejection::DeclarationsTooLarge))
    } else {
        match fragments[0].values {
            Err(findings) => Err(Fault::Manifest(findings)),
            Ok(values) => match declare_all(declared, count, values) {
                Err(rejection) => Err(Fault::Rejected(rejection)),
                Ok(next) => declare_fragments(
                    next,
                    count + values.len(),
                    total + fragments[0].size,
                    fragments.drop_first(),
                ),
            },
        }
    }
}

/// An action list names exactly the declared actions, each once.
pub open spec fn lists_actions(list: Seq<JsonValue>, actions: Set<Seq<char>>) -> bool {
    &&& forall|i: int| 0 <= i < list.len() ==> (#[trigger] list[i]) is Text && actions.contains(list[i]->Text_0)
    &&& forall|i: int, j: int| 0 <= i < j < list.len() ==> list[i] != list[j]
    &&& forall|name: Seq<char>| #[trigger] actions.contains(name) ==> list.contains(JsonValue::Text(name))
}

/// An action declaration grants `capability` on the resource `resource`.
pub open spec fn grants(action: Members, resource: Seq<char>, capability: Seq<char>) -> bool {
    lookup(action, "resources"@) matches Some(JsonValue::Object(entries)) && exists|i: int|
        0 <= i < entries.len() && (#[trigger] entries[i]).0 == resource && (entries[i].1 matches JsonValue::Array(
            capabilities,
        ) && capabilities.contains(JsonValue::Text(capability)))
}

/// Some action grants `capability` on the resource `resource`.
pub open spec fn granted(actions: Map<Seq<char>, Members>, resource: Seq<char>, capability: Seq<char>) -> bool {
    exists|name: Seq<char>| #[trigger]
        actions.dom().contains(name) && grants(actions[name], resource, capability)
}

/// `list` names in ascending order exactly the capabilities granted on `resource`.
pub open spec fn is_capability_list(list: Seq<JsonValue>, actions: Map<Seq<char>, Members>, resource: Seq<char>) -> bool {
    exists|capabilities: Seq<Seq<char>>| #[trigger]
        ascending(capabilities) && list == capabilities.map_values(|capability: Seq<char>| JsonValue::Text(capability))
            && forall|capability: Seq<char>| #[trigger]
            capabilities.contains(capability) <==> granted(actions, resource, capability)
}

/// A resource declaration after its capabilities were filled in: those that it
/// declares itself stay.
pub open spec fn is_completed(before: Members, after: Members, actions: Map<Seq<char>, Members>, name: Seq<char>) -> bool {
    if lookup(before, "capabilities"@) is Some {
        after == before
    } else {
        exists|list: Seq<JsonValue>| #[trigger]
            is_capability_list(list, actions, name) && after == with_member(
                before,
                "capabilities"@,
                JsonValue::Array(list),
            )
    }
}

/// The assembled declarations: the extension's own members, and its actions,
/// resources and connections by name.
pub struct Assembled {
    pub extension: Vec<(String, Json)>,
    pub actions: Table<Vec<(String, Json)>>,
    pub resources: Table<Vec<(String, Json)>>,
    pub connections: Table<Vec<(String, Json)>>,
}

/// The members under each name of a table.
pub open spec fn declarations(table: Table<Vec<(String, Json)>>) -> Map<Seq<char>, Members> {
    table@.map_values(|members: Vec<(String, Json)>| members_of(members@))
}

/// What `declared` assembles to: the extension without its action list, the
/// actions and connections as declared, and the completed resources.
pub open spec fn is_assembly(declared: Declared, assembled: Assembled) -> bool {
    &&& declared.extension is Some
    &&& members_of(assembled.extension@) == without_member(declared.extension->0, "actions"@)
    &&& assembled.actions.wf() && assembled.resources.wf() && assembled.connections.wf()
    &&& declarations(assembled.actions) == declared.actions
    &&& declarations(assembled.connections) == declared.connections
    &&& assembled.resources@.dom() == declared.resources.dom()
    &&& forall|name: Seq<char>| #[trigger]
        declared.resources.dom().contains(name) ==> is_completed(
            declared.resources[name],
            declarations(assembled.resources)[name],
            declared.actions,
            name,
        )
}

/// Why complete declarations do not assemble, if they do not.
pub open spec fn assembly_fault(declared: Declared) -> Option<Rejection> {
    match declared.extension {
        None => Some(Rejection::ExtensionAbsent),
        Some(extension) => if lookup(extension, "resources"@) is Some || lookup(extension, "connections"@) is Some {
            Some(Rejection::NamedRequired)
        } else {
            match lookup(extension, "actions"@) {
                Some(JsonValue::Array(list)) => if lists_actions(list, declared.actions.dom()) {
                    None
                } else {
                    Some(Rejection::ActionListMismatch)
                },
                _ => Some(Rejection::ActionListAbsent),
            }
        },
    }
}

/// The declarations while they are read.
struct Collector {
    extension: Option<Vec<(String, Json)>>,
    actions: Table<Vec<(String, Json)>>,
    resources: Table<Vec<(String, Json)>>,
    connections: Table<Vec<(String, Json)>>,
}

impl View for Collector {
    type V = Declared;

    closed spec fn view(&self) -> Declared {
        Declared {
            extension: match self.extension {
                Some(members) => Some(members_of(members@)),
                None => None,
            },
            actions: declarations(self.actions),
            resources: declarations(self.resources),
            connections: declarations(self.connections),
        }
    }
}

impl Collector {
    spec fn wf(&self) -> bool {
        self.actions.wf() && self.resources.wf() && self.connections.wf()
    }

    fn new() -> (collector: Collector)
        ensures
            collector.wf(),
            collector@ == Declared::none(),
    {
        let collector = Collector {
            extension: None,
            actions: Table::new(),
            resources: Table::new(),
            connections: Table::new(),
        };
        proof {
            assert(collector@.actions =~= Map::empty());
            assert(collector@.resources =~= Map::empty());
            assert(collector@.connections =~= Map::empty());
        }
        collector
    }

    fn declare(&mut self, declaration: Json) -> (declared: Result<(), Rejection>)
        requires
            old(self).wf(),
        ensures
            match declared {
                Ok(_) => final(self).wf() && declare(old(self)@, declaration@) == Ok::<Declared, Rejection>(final(self)@),
                Err(rejection) => declare(old(self)@, declaration@) == Err::<Declared, Rejection>(rejection),
            },
    {
        let mut part = match declaration {
            Json::Object(part) => {
                proof {
                    lemma_object(part);
                }
                part
            },
            _ => return Err(Rejection::DeclarationNotObject),
        };
        let kind = match take_member(&mut part, "kind") {
            Some(Json::Text(kind)) => kind,
            _ => return Err(Rejection::KindRequired),
        };
        if same_text(kind.as_str(), "extension") {
            if self.extension.is_some() {
                return Err(Rejection::ExtensionDuplicated);
            }
            self.extension = Some(part);
            return Ok(());
        }
        let name = match take_member(&mut part, "name") {
            Some(Json::Text(name)) => name,
            _ => return Err(Rejection::NameRequired),
        };
        if same_text(kind.as_str(), "action") {
            enter(&mut self.actions, name, part)
        } else if same_text(kind.as_str(), "resource") {
            enter(&mut self.resources, name, part)
        } else if same_text(kind.as_str(), "connection") {
            enter(&mut self.connections, name, part)
        } else {
            Err(Rejection::KindUnknown)
        }
    }
}

impl Collector {
    /// Reads a list of declarations, of which `count` were read before.
    fn declare_all(&mut self, count: usize, declarations: Vec<Json>) -> (declared: Result<(), Rejection>)
        requires
            old(self).wf(),
            count <= MAX_PARTS,
        ensures
            match declared {
                Ok(_) => {
                    &&& final(self).wf()
                    &&& count + declarations@.len() <= MAX_PARTS
                    &&& declare_all(old(self)@, count as int, values_of(declarations@)) == Ok::<Declared, Rejection>(
                        final(self)@,
                    )
                },
                Err(rejection) => declare_all(old(self)@, count as int, values_of(declarations@)) == Err::<
                    Declared,
                    Rejection,
                >(rejection),
            },
    {
        let ghost outcome = declare_all(self@, count as int, values_of(declarations@));
        let mut left = declarations;
        let mut read = count;
        while left.len() > 0
            invariant
                self.wf(),
                read <= MAX_PARTS,
                read + left@.len() == count + declarations@.len(),
                outcome == declare_all(old(self)@, count as int, values_of(declarations@)),
                outcome == declare_all(self@, read as int, values_of(left@)),
            decreases left@.len(),
        {
            let ghost rest = values_of(left@);
            let value = left.remove(0);
            assert(rest[0] == value@);
            assert(values_of(left@) =~= rest.drop_first());
            if read >= MAX_PARTS {
                return Err(Rejection::TooManyDeclarations);
            }
            match self.declare(value) {
                Ok(_) => {},
                Err(rejection) => return Err(rejection),
            }
            read += 1;
        }
        Ok(())
    }
}

/// Puts a declaration under a name that must be new.
fn enter(table: &mut Table<Vec<(String, Json)>>, name: String, part: Vec<(String, Json)>) -> (entered: Result<
    (),
    Rejection,
>)
    requires
        old(table).wf(),
    ensures
        match entered {
            Ok(_) => final(table).wf() && !declarations(*old(table)).dom().contains(name@) && declarations(*final(table))
                == declarations(*old(table)).insert(name@, members_of(part@)),
            Err(rejection) => rejection == Rejection::NameDuplicated && declarations(*old(table)).dom().contains(name@),
        },
{
    if table.contains(name.as_str()) {
        return Err(Rejection::NameDuplicated);
    }
    let ghost before = *table;
    let ghost key = name@;
    let ghost members = members_of(part@);
    table.insert(name, part);
    assert(declarations(*table) =~= declarations(before).insert(key, members));
    Ok(())
}

/// Whether `list` names exactly the actions of `actions`, each once.
fn matches_actions(list: &Vec<Json>, actions: &Table<Vec<(String, Json)>>) -> (matched: bool)
    requires
        actions.wf(),
    ensures
        matched == lists_actions(values_of(list@), declarations(*actions).dom()),
{
    let ghost values = values_of(list@);
    let ghost dom = declarations(*actions).dom();
    let mut index: usize = 0;
    while index < list.len()
        invariant
            index <= list.len(),
            values == values_of(list@),
            dom == declarations(*actions).dom(),
            actions.wf(),
            forall|i: int| 0 <= i < index ==> (#[trigger] values[i]) is Text && dom.contains(values[i]->Text_0),
            forall|i: int, j: int| 0 <= i < j < index ==> values[i] != values[j],
        decreases list.len() - index,
    {
        assert(values[index as int] == list@[index as int]@);
        let name = match list[index].as_text() {
            Some(name) => name,
            None => return false,
        };
        if !actions.contains(name) {
            return false;
        }
        let mut before: usize = 0;
        while before < index
            invariant
                before <= index < list.len(),
                values == values_of(list@),
                values[index as int] == JsonValue::Text(name@),
                forall|i: int| 0 <= i < before ==> values[i] != values[index as int],
            decreases index - before,
        {
            assert(values[before as int] == list@[before as int]@);
            if let Some(other) = list[before].as_text() {
                if same_text(other, name) {
                    return false;
                }
            }
            before += 1;
        }
        index += 1;
    }
    let mut place: usize = 0;
    while place < actions.entries.len()
        invariant
            place <= actions.entries.len(),
            values == values_of(list@),
            dom == declarations(*actions).dom(),
            actions.wf(),
            forall|i: int| 0 <= i < place ==> values.contains(JsonValue::Text((#[trigger] actions.entries@[i]).0@)),
        decreases actions.entries.len() - place,
    {
        let name = actions.entries[place].0.as_str();
        let mut found = false;
        let mut at: usize = 0;
        while at < list.len()
            invariant
                at <= list.len(),
                values == values_of(list@),
                found ==> values.contains(JsonValue::Text(name@)),
                !found ==> forall|i: int| 0 <= i < at ==> values[i] != JsonValue::Text(name@),
            decreases list.len() - at,
        {
            assert(values[at as int] == list@[at as int]@);
            if let Some(other) = list[at].as_text() {
                if same_text(other, name) {
                    found = true;
                }
            }
            at += 1;
        }
        if !found {
            proof {
                actions.lemma_entry(place as int);
                assert(dom.contains(name@));
            }
            return false;
        }
        place += 1;
    }
    proof {
        assert forall|name: Seq<char>| #[trigger] dom.contains(name) implies values.contains(JsonValue::Text(name)) by {
            let at = actions.names().index_of(name);
            assert(actions.names()[at] == name);
            assert(actions.entries@[at].0@ == name);
        }
    }
    true
}

/// Adds the capabilities that one action grants on `resource` to `found`.
fn collect_capabilities(action: &Vec<(String, Json)>, resource: &str, found: &mut Table<()>)
    requires
        old(found).wf(),
    ensures
        final(found).wf(),
        forall|capability: Seq<char>| #[trigger]
            final(found)@.dom().contains(capability) <==> old(found)@.dom().contains(capability) || grants(
                members_of(action@),
                resource@,
                capability,
            ),
{
    let entries = match find_member(action, "resources") {
        Some(index) => match &action[index].1 {
            Json::Object(entries) => {
                proof {
                    lemma_object(*entries);
                }
                entries
            },
            _ => return,
        },
        None => return,
    };
    let ghost listed = members_of(entries@);
    let mut index: usize = 0;
    while index < entries.len()
        invariant
            index <= entries.len(),
            listed == members_of(entries@),
            lookup(members_of(action@), "resources"@) == Some(JsonValue::Object(listed)),
            found.wf(),
            forall|capability: Seq<char>| #[trigger]
                found@.dom().contains(capability) <==> old(found)@.dom().contains(capability) || exists|i: int|
                    0 <= i < index && grant_at(listed, i, resource@, capability),
        decreases entries.len() - index,
    {
        let ghost before = found@;
        assert(listed[index as int] == (entries@[index as int].0@, entries@[index as int].1@));
        if same_text(entries[index].0.as_str(), resource) {
            if let Json::Array(capabilities) = &entries[index].1 {
                proof {
                    lemma_array(*capabilities);
                }
                let mut at: usize = 0;
                while at < capabilities.len()
                    invariant
                        at <= capabilities.len(),
                        found.wf(),
                        forall|capability: Seq<char>| #[trigger]
                            found@.dom().contains(capability) <==> before.dom().contains(capability) || exists|j: int|
                                0 <= j < at && #[trigger] values_of(capabilities@)[j] == JsonValue::Text(capability),
                    decreases capabilities.len() - at,
                {
                    assert(values_of(capabilities@)[at as int] == capabilities@[at as int]@);
                    if let Some(capability) = capabilities[at].as_text() {
                        found.insert(capability.to_owned(), ());
                    }
                    at += 1;
                }
                assert forall|capability: Seq<char>| #[trigger] found@.dom().contains(capability)
                    <==> before.dom().contains(capability) || grant_at(
                    listed,
                    index as int,
                    resource@,
                    capability,
                ) by {
                    let values = values_of(capabilities@);
                    assert(grant_at(listed, index as int, resource@, capability) == values.contains(
                        JsonValue::Text(capability),
                    ));
                }
            }
        }
        assert forall|capability: Seq<char>| #[trigger] found@.dom().contains(capability) <==> old(found)@.dom().contains(
            capability,
        ) || exists|i: int| 0 <= i < index + 1 && grant_at(listed, i, resource@, capability) by {
            assert(found@.dom().contains(capability) <==> before.dom().contains(capability) || grant_at(
                listed,
                index as int,
                resource@,
                capability,
            ));
            assert(before.dom().contains(capability) <==> old(found)@.dom().contains(capability) || exists|i: int|
                0 <= i < index && grant_at(listed, i, resource@, capability));
        }
        index += 1;
    }
    assert forall|capability: Seq<char>| #[trigger] found@.dom().contains(capability) <==> old(found)@.dom().contains(
        capability,
    ) || grants(members_of(action@), resource@, capability) by {
        assert((exists|i: int| 0 <= i < listed.len() && grant_at(listed, i, resource@, capability)) <==> grants(
            members_of(action@),
            resource@,
            capability,
        )) by {
            if exists|i: int| 0 <= i < listed.len() && grant_at(listed, i, resource@, capability) {
                let i = choose|i: int| 0 <= i < listed.len() && grant_at(listed, i, resource@, capability);
                assert(listed[i].0 == resource@);
            }
            if grants(members_of(action@), resource@, capability) {
                let i = choose|i: int|
                    0 <= i < listed.len() && (#[trigger] listed[i]).0 == resource@ && (listed[i].1 matches JsonValue::Array(
                        capabilities,
                    ) && capabilities.contains(JsonValue::Text(capability)));
                assert(grant_at(listed, i, resource@, capability));
            }
        }
    }
}

/// The entry at `index` grants `capability` on `resource`.
spec fn grant_at(entries: Members, index: int, resource: Seq<char>, capability: Seq<char>) -> bool {
    entries[index].0 == resource && (entries[index].1 matches JsonValue::Array(capabilities) && capabilities.contains(
        JsonValue::Text(capability),
    ))
}

/// Returns in ascending order the capabilities that the actions grant on `resource`.
fn capability_list(actions: &Table<Vec<(String, Json)>>, resource: &str) -> (list: Vec<Json>)
    requires
        actions.wf(),
    ensures
        is_capability_list(values_of(list@), declarations(*actions), resource@),
{
    let ghost granting = declarations(*actions);
    let mut found: Table<()> = Table::new();
    let mut index: usize = 0;
    while index < actions.entries.len()
        invariant
            index <= actions.entries.len(),
            actions.wf(),
            found.wf(),
            forall|capability: Seq<char>| #[trigger]
                found@.dom().contains(capability) <==> exists|i: int|
                    0 <= i < index && grants(
                        members_of((#[trigger] actions.entries@[i]).1@),
                        resource@,
                        capability,
                    ),
        decreases actions.entries.len() - index,
    {
        collect_capabilities(&actions.entries[index].1, resource, &mut found);
        index += 1;
    }
    let mut list: Vec<Json> = Vec::new();
    let mut at: usize = 0;
    while at < found.entries.len()
        invariant
            at <= found.entries.len(),
            values_of(list@) == found.names().take(at as int).map_values(
                |capability: Seq<char>| JsonValue::Text(capability),
            ),
        decreases found.entries.len() - at,
    {
        let ghost before = list@;
        list.push(Json::Text(found.entries[at].0.clone()));
        proof {
            assert(found.names().take(at + 1) =~= found.names().take(at as int).push(found.entries@[at as int].0@));
            assert(values_of(list@) =~= values_of(before).push(JsonValue::Text(found.entries@[at as int].0@)));
            assert(found.names().take(at + 1).map_values(|capability: Seq<char>| JsonValue::Text(capability))
                =~= found.names().take(at as int).map_values(|capability: Seq<char>| JsonValue::Text(capability)).push(
                JsonValue::Text(found.entries@[at as int].0@),
            ));
        }
        at += 1;
    }
    proof {
        let capabilities = found.names();
        assert(capabilities.take(capabilities.len() as int) =~= capabilities);
        assert(ascending(capabilities));
        assert forall|capability: Seq<char>| #[trigger] capabilities.contains(capability) <==> granted(
            granting,
            resource@,
            capability,
        ) by {
            assert(capabilities.contains(capability) == found@.dom().contains(capability));
            if granted(granting, resource@, capability) {
                let name = choose|name: Seq<char>| #[trigger]
                    granting.dom().contains(name) && grants(granting[name], resource@, capability);
                let i = actions.names().index_of(name);
                assert(actions.names()[i] == name);
                actions.lemma_entry(i);
                assert(grants(members_of(actions.entries@[i].1@), resource@, capability));
            }
            if found@.dom().contains(capability) {
                let i = choose|i: int|
                    0 <= i < actions.entries@.len() && grants(
                        members_of((#[trigger] actions.entries@[i]).1@),
                        resource@,
                        capability,
                    );
                actions.lemma_entry(i);
                assert(granting.dom().contains(actions.entries@[i].0@));
            }
        }
    }
    list
}

/// Fills in the capabilities of every resource that declares none itself.
fn derive_capabilities(actions: &Table<Vec<(String, Json)>>, resources: Table<Vec<(String, Json)>>) -> (completed: Table<
    Vec<(String, Json)>,
>)
    requires
        actions.wf(),
        resources.wf(),
    ensures
        completed.wf(),
        completed@.dom() == resources@.dom(),
        forall|name: Seq<char>| #[trigger]
            resources@.dom().contains(name) ==> is_completed(
                declarations(resources)[name],
                declarations(completed)[name],
                declarations(*actions),
                name,
            ),
{
    let ghost listed = resources;
    let mut left = resources.entries;
    let ghost all = left@;
    let mut completed: Vec<(String, Vec<(String, Json)>)> = Vec::new();
    while left.len() > 0
        invariant
            actions.wf(),
            listed.wf(),
            listed.entries@ == all,
            completed@.len() + left@.len() == all.len(),
            left@ == all.skip(completed@.len() as int),
            forall|i: int|
                0 <= i < completed@.len() ==> (#[trigger] completed@[i]).0@ == all[i].0@ && is_completed(
                    members_of(all[i].1@),
                    members_of(completed@[i].1@),
                    declarations(*actions),
                    all[i].0@,
                ),
        decreases left@.len(),
    {
        let (name, mut members) = left.remove(0);
        let ghost before = members@;
        let ghost taken = completed@.len() as int;
        assert(all.skip(taken)[0] == all[taken]);
        assert(all.skip(taken).remove(0) =~= all.skip(taken + 1));
        if find_member(&members, "capabilities").is_none() {
            let list = capability_list(actions, name.as_str());
            proof {
                lemma_array(list);
            }
            put_member(&mut members, "capabilities".to_owned(), Json::Array(list));
            assert(is_capability_list(values_of(list@), declarations(*actions), name@));
        }
        assert(is_completed(members_of(before), members_of(members@), declarations(*actions), name@));
        completed.push((name, members));
    }
    let completed = Table { entries: completed };
    proof {
        assert(completed.names() =~= listed.names());
        assert(completed@.dom() =~= listed@.dom());
        assert forall|name: Seq<char>| #[trigger] listed@.dom().contains(name) implies is_completed(
            declarations(listed)[name],
            declarations(completed)[name],
            declarations(*actions),
            name,
        ) by {
            let i = listed.names().index_of(name);
            assert(listed.names()[i] == name);
            listed.lemma_entry(i);
            completed.lemma_entry(i);
            assert(completed.entries@[i].0@ == all[i].0@);
        }
    }
    completed
}

/// What each declaration section holds.
pub open spec fn fragments_of(fragments: Seq<Fragment>) -> Seq<FragmentView> {
    fragments.map_values(|fragment: Fragment| fragment@)
}

/// Assembles one extension and its named declarations.
///
/// The declarations of a kind stand in the order of their names, whatever the
/// order of the sections. Resources that declare no capabilities get those that
/// the actions use.
pub fn assemble_parts(fragments: Vec<Fragment>) -> (assembled: Result<Assembled, ComponentError>)
    ensures
        if fragments@.len() > MAX_PARTS {
            assembled matches Err(error) && error@ == Fault::Rejected(Rejection::TooManySections)
        } else {
            match declare_fragments(Declared::none(), 0, 0, fragments_of(fragments@)) {
                Err(fault) => assembled matches Err(error) && error@ == fault,
                Ok(declared) => match assembly_fault(declared) {
                    Some(rejection) => assembled matches Err(error) && error@ == Fault::Rejected(rejection),
                    None => assembled matches Ok(assembled) && is_assembly(declared, assembled),
                },
            }
        },
{
    if fragments.len() > MAX_PARTS {
        return Err(ComponentError::Rejected(Rejection::TooManySections));
    }
    let mut collector = Collector::new();
    let mut count: usize = 0;
    let mut total: usize = 0;
    let ghost all = fragments_of(fragments@);
    let mut left = fragments;
    let ghost outcome = declare_fragments(Declared::none(), 0, 0, all);
    while left.len() > 0
        invariant
            collector.wf(),
            count <= MAX_PARTS,
            total <= MAX_COMPONENT_BYTES,
            fragments@.len() <= MAX_PARTS,
            outcome == declare_fragments(Declared::none(), 0, 0, fragments_of(fragments@)),
            outcome == declare_fragments(collector@, count as int, total as int, fragments_of(left@)),
        decreases left@.len(),
    {
        let ghost sections = fragments_of(left@);
        let fragment = left.remove(0);
        assert(sections[0] == fragment@);
        assert(fragments_of(left@) =~= sections.drop_first());
        if fragment.size > MAX_COMPONENT_BYTES - total {
            return Err(ComponentError::Rejected(Rejection::DeclarationsTooLarge));
        }
        total += fragment.size;
        let values = match fragment.values {
            Ok(values) => values,
            Err(findings) => return Err(ComponentError::Manifest(findings)),
        };
        let length = values.len();
        match collector.declare_all(count, values) {
            Ok(_) => {},
            Err(rejection) => return Err(ComponentError::Rejected(rejection)),
        }
        count += length;
    }
    let ghost declared = collector@;
    assert(outcome == Ok::<Declared, Fault>(declared));
    let mut extension = match collector.extension {
        Some(extension) => extension,
        None => return Err(ComponentError::Rejected(Rejection::ExtensionAbsent)),
    };
    if find_member(&extension, "resources").is_some() || find_member(&extension, "connections").is_some() {
        return Err(ComponentError::Rejected(Rejection::NamedRequired));
    }
    let list = match take_member(&mut extension, "actions") {
        Some(Json::Array(list)) => {
            proof {
                lemma_array(list);
            }
            list
        },
        _ => return Err(ComponentError::Rejected(Rejection::ActionListAbsent)),
    };
    if !matches_actions(&list, &collector.actions) {
        return Err(ComponentError::Rejected(Rejection::ActionListMismatch));
    }
    let ghost before = collector.resources;
    let resources = derive_capabilities(&collector.actions, collector.resources);
    let assembled = Assembled { extension, actions: collector.actions, resources, connections: collector.connections };
    proof {
        assert(declared.resources.dom() =~= before@.dom());
        assert forall|name: Seq<char>| #[trigger] declared.resources.dom().contains(name) implies is_completed(
            declared.resources[name],
            declarations(assembled.resources)[name],
            declared.actions,
            name,
        ) by {
            assert(before@.dom().contains(name));
        }
        assert(is_assembly(declared, assembled));
    }
    Ok(assembled)
}

/// The JSON object of a table of declarations.
pub open spec fn table_value(entries: Seq<(String, Vec<(String, Json)>)>) -> JsonValue {
    JsonValue::Object(
        entries.map_values(|entry: (String, Vec<(String, Json)>)| (entry.0@, JsonValue::Object(members_of(entry.1@)))),
    )
}

fn table_json(table: Table<Vec<(String, Json)>>) -> (json: Json)
    ensures
        json@ == table_value(table.entries@),
{
    let mut left = table.entries;
    let ghost all = left@;
    let mut members: Vec<(String, Json)> = Vec::new();
    while left.len() > 0
        invariant
            all == table.entries@,
            members@.len() + left@.len() == all.len(),
            left@ == all.skip(members@.len() as int),
            forall|i: int|
                0 <= i < members@.len() ==> (#[trigger] members@[i]).0@ == all[i].0@ && members@[i].1@ == JsonValue::Object(
                    members_of(all[i].1@),
                ),
        decreases left@.len(),
    {
        let ghost taken = members@.len() as int;
        assert(all.skip(taken)[0] == all[taken]);
        assert(all.skip(taken).remove(0) =~= all.skip(taken + 1));
        let (name, declaration) = left.remove(0);
        proof {
            lemma_object(declaration);
        }
        members.push((name, Json::Object(declaration)));
    }
    proof {
        lemma_object(members);
        assert(members_of(members@) =~= table_value(all)->Object_0);
    }
    Json::Object(members)
}

impl Assembled {
    /// The manifest document: the extension's members, then the actions, the
    /// resources and the connections by name.
    pub open spec fn document_spec(&self) -> JsonValue {
        JsonValue::Object(
            with_member(
                with_member(
                    with_member(members_of(self.extension@), "actions"@, table_value(self.actions.entries@)),
                    "resources"@,
                    table_value(self.resources.entries@),
                ),
                "connections"@,
                table_value(self.connections.entries@),
            ),
        )
    }

    /// Returns the manifest document.
    pub fn document(self) -> (document: Json)
        ensures
            document@ == self.document_spec(),
    {
        let mut members = self.extension;
        put_member(&mut members, "actions".to_owned(), table_json(self.actions));
        put_member(&mut members, "resources".to_owned(), table_json(self.resources));
        put_member(&mut members, "connections".to_owned(), table_json(self.connections));
        proof {
            lemma_object(members);
        }
        Json::Object(members)
    }
}

/// Two declarations that are accepted one after the other are accepted the
/// other way round, with the same result.
pub proof fn law_declarations_commute(declared: Declared, first: JsonValue, second: JsonValue)
    requires
        declare(declared, first) is Ok,
        declare(declare(declared, first)->Ok_0, second) is Ok,
    ensures
        declare(declared, second) is Ok,
        declare(declare(declared, second)->Ok_0, first) == declare(declare(declared, first)->Ok_0, second),
{
    let one = declare(declared, first)->Ok_0;
    let both = declare(one, second)->Ok_0;
    let other = declare(declared, second)->Ok_0;
    let swapped = declare(other, first)->Ok_0;
    assert(both.actions =~= swapped.actions);
    assert(both.resources =~= swapped.resources);
    assert(both.connections =~= swapped.connections);
}

/// A declaration of an accepted list may come first.
proof fn lemma_declare_first(declared: Declared, count: int, list: Seq<JsonValue>, index: int)
    requires
        0 <= index < list.len(),
        declare_all(declared, count, list) is Ok,
    ensures
        declare_all(declared, count, seq![list[index]] + list.remove(index)) == declare_all(declared, count, list),
    decreases list.len(),
{
    let moved = seq![list[index]] + list.remove(index);
    if index == 0 {
        assert(moved =~= list);
    } else {
        let next = declare(declared, list[0])->Ok_0;
        let rest = list.drop_first();
        assert(rest[index - 1] == list[index]);
        lemma_declare_first(next, count + 1, rest, index - 1);
        let inner = seq![rest[index - 1]] + rest.remove(index - 1);
        assert(inner.drop_first() =~= rest.remove(index - 1));
        assert(inner[0] == list[index]);
        law_declarations_commute(declared, list[0], list[index]);
        assert(moved.drop_first() =~= seq![list[0]] + rest.remove(index - 1));
        assert(moved.drop_first().drop_first() =~= rest.remove(index - 1));
        assert(moved.drop_first()[0] == list[0]);
        assert(moved[0] == list[index]);
        reveal_with_fuel(declare_all, 3);
    }
}

/// Assembly does not depend on the order of the declarations: an accepted list
/// gives the same in every order.
pub proof fn law_declarations_in_any_order(declared: Declared, count: int, list: Seq<JsonValue>, other: Seq<JsonValue>)
    requires
        declare_all(declared, count, list) is Ok,
        list.to_multiset() == other.to_multiset(),
    ensures
        declare_all(declared, count, other) == declare_all(declared, count, list),
    decreases other.len(),
{
    broadcast use vstd::seq_lib::group_to_multiset_ensures;

    assert(list.len() == other.len()) by {
        list.to_multiset_ensures();
        other.to_multiset_ensures();
    }
    if other.len() > 0 {
        assert(other.to_multiset().count(other[0]) > 0) by {
            other.to_multiset_ensures();
            assert(other.contains(other[0]));
        }
        assert(list.contains(other[0])) by {
            list.to_multiset_ensures();
        }
        let index = choose|i: int| 0 <= i < list.len() && list[i] == other[0];
        lemma_declare_first(declared, count, list, index);
        let moved = seq![list[index]] + list.remove(index);
        assert(moved.drop_first() =~= list.remove(index));
        assert(other =~= seq![other[0]] + other.drop_first());
        assert(list.remove(index).to_multiset() =~= other.drop_first().to_multiset()) by {
            list.to_multiset_ensures();
            other.to_multiset_ensures();
            assert(other.remove(0) =~= other.drop_first());
        }
        law_declarations_in_any_order(
            declare(declared, other[0])->Ok_0,
            count + 1,
            list.remove(index),
            other.drop_first(),
        );
    } else {
        assert(list =~= other);
    }
}

proof fn lemma_declare_concat(declared: Declared, count: int, first: Seq<JsonValue>, second: Seq<JsonValue>)
    ensures
        declare_all(declared, count, first + second) == match declare_all(declared, count, first) {
            Ok(next) => declare_all(next, count + first.len(), second),
            Err(rejection) => Err(rejection),
        },
    decreases first.len(),
{
    if first.len() == 0 {
        assert(first + second =~= second);
    } else {
        assert((first + second).drop_first() =~= first.drop_first() + second);
        if count < MAX_PARTS {
            if let Ok(next) = declare(declared, first[0]) {
                lemma_declare_concat(next, count + 1, first.drop_first(), second);
            }
        }
    }
}

/// Two sections that are accepted one after the other are accepted the other way round.
proof fn lemma_sections_commute(
    declared: Declared,
    count: int,
    total: int,
    first: FragmentView,
    second: FragmentView,
    rest: Seq<FragmentView>,
)
    requires
        first.size >= 0,
        second.size >= 0,
        declare_fragments(declared, count, total, seq![first, second] + rest) is Ok,
    ensures
        declare_fragments(declared, count, total, seq![second, first] + rest) == declare_fragments(
            declared,
            count,
            total,
            seq![first, second] + rest,
        ),
{
    let list = seq![first, second] + rest;
    let swapped = seq![second, first] + rest;
    assert(list.drop_first() =~= seq![second] + rest);
    assert(list.drop_first().drop_first() =~= rest);
    assert(swapped.drop_first() =~= seq![first] + rest);
    assert(swapped.drop_first().drop_first() =~= rest);
    assert(list[0] == first && list.drop_first()[0] == second);
    assert(swapped[0] == second && swapped.drop_first()[0] == first);
    reveal_with_fuel(declare_fragments, 3);
    let one = first.values->Ok_0;
    let other = second.values->Ok_0;
    lemma_declare_concat(declared, count, one, other);
    lemma_declare_concat(declared, count, other, one);
    assert((one + other).to_multiset() =~= (other + one).to_multiset()) by {
        vstd::seq_lib::lemma_multiset_commutative(one, other);
        vstd::seq_lib::lemma_multiset_commutative(other, one);
    }
    law_declarations_in_any_order(declared, count, one + other, other + one);
    assert(declare_all(declared, count, other) is Ok);
}

/// A section of an accepted list may come first.
proof fn lemma_section_first(declared: Declared, count: int, total: int, list: Seq<FragmentView>, index: int)
    requires
        0 <= index < list.len(),
        forall|i: int| 0 <= i < list.len() ==> (#[trigger] list[i]).size >= 0,
        declare_fragments(declared, count, total, list) is Ok,
    ensures
        declare_fragments(declared, count, total, seq![list[index]] + list.remove(index)) == declare_fragments(
            declared,
            count,
            total,
            list,
        ),
    decreases list.len(),
{
    let moved = seq![list[index]] + list.remove(index);
    if index == 0 {
        assert(moved =~= list);
    } else {
        let rest = list.drop_first();
        let values = list[0].values->Ok_0;
        let next = declare_all(declared, count, values)->Ok_0;
        assert(rest[index - 1] == list[index]);
        assert forall|i: int| 0 <= i < rest.len() implies (#[trigger] rest[i]).size >= 0 by {
            assert(rest[i] == list[i + 1]);
        }
        lemma_section_first(next, count + values.len(), total + list[0].size, rest, index - 1);
        let inner = seq![rest[index - 1]] + rest.remove(index - 1);
        let tail = rest.remove(index - 1);
        let pair = seq![list[0], list[index]] + tail;
        assert(pair.drop_first() =~= inner);
        assert(pair[0] == list[0]);
        assert(declare_fragments(declared, count, total, pair) == declare_fragments(declared, count, total, list));
        lemma_sections_commute(declared, count, total, list[0], list[index], tail);
        assert(moved =~= seq![list[index], list[0]] + tail);
    }
}

/// Assembly does not depend on the order of the declaration sections: sections that are
/// accepted declare the same in every order.
pub proof fn law_sections_in_any_order(
    declared: Declared,
    count: int,
    total: int,
    list: Seq<FragmentView>,
    other: Seq<FragmentView>,
)
    requires
        forall|i: int| 0 <= i < list.len() ==> (#[trigger] list[i]).size >= 0,
        declare_fragments(declared, count, total, list) is Ok,
        list.to_multiset() == other.to_multiset(),
    ensures
        declare_fragments(declared, count, total, other) == declare_fragments(declared, count, total, list),
    decreases other.len(),
{
    broadcast use vstd::seq_lib::group_to_multiset_ensures;

    assert(list.len() == other.len()) by {
        list.to_multiset_ensures();
        other.to_multiset_ensures();
    }
    if other.len() > 0 {
        assert(other.to_multiset().count(other[0]) > 0) by {
            other.to_multiset_ensures();
            assert(other.contains(other[0]));
        }
        assert(list.contains(other[0])) by {
            list.to_multiset_ensures();
        }
        let index = choose|i: int| 0 <= i < list.len() && list[i] == other[0];
        lemma_section_first(declared, count, total, list, index);
        let moved = seq![list[index]] + list.remove(index);
        let rest = list.remove(index);
        assert(moved.drop_first() =~= rest);
        assert(moved[0] == other[0]);
        assert(rest.to_multiset() =~= other.drop_first().to_multiset()) by {
            list.to_multiset_ensures();
            other.to_multiset_ensures();
            assert(other.remove(0) =~= other.drop_first());
        }
        assert forall|i: int| 0 <= i < rest.len() implies (#[trigger] rest[i]).size >= 0 by {
            if i < index {
                assert(rest[i] == list[i]);
            } else {
                assert(rest[i] == list[i + 1]);
            }
        }
        let values = other[0].values->Ok_0;
        law_sections_in_any_order(
            declare_all(declared, count, values)->Ok_0,
            count + values.len(),
            total + other[0].size,
            rest,
            other.drop_first(),
        );
    } else {
        assert(list =~= other);
    }
}

proof fn lemma_same_tables(first: Table<Vec<(String, Json)>>, second: Table<Vec<(String, Json)>>)
    requires
        first.wf(),
        second.wf(),
        declarations(first) == declarations(second),
    ensures
        table_value(first.entries@) == table_value(second.entries@),
{
    assert(first@.dom() =~= declarations(first).dom());
    assert(second@.dom() =~= declarations(second).dom());
    assert forall|name: Seq<char>| #[trigger] first.names().contains(name) <==> second.names().contains(name) by {
        assert(first@.dom().contains(name) == second@.dom().contains(name));
    }
    lemma_ascending_once(first.names(), second.names());
    assert(first.names().len() == first.entries@.len() && second.names().len() == second.entries@.len());
    assert forall|i: int| 0 <= i < first.entries@.len() implies #[trigger] table_value(first.entries@)->Object_0[i]
        == table_value(second.entries@)->Object_0[i] by {
        first.lemma_entry(i);
        second.lemma_entry(i);
        let name = first.entries@[i].0@;
        assert(first.names()[i] == name && second.names()[i] == name);
        assert(declarations(first)[name] == members_of(first.entries@[i].1@));
        assert(declarations(second)[name] == members_of(second.entries@[i].1@));
    }
    assert(table_value(first.entries@)->Object_0 =~= table_value(second.entries@)->Object_0);
}

/// Declarations assemble to one document.
pub proof fn law_assembly_is_determined(declared: Declared, first: Assembled, second: Assembled)
    requires
        is_assembly(declared, first),
        is_assembly(declared, second),
    ensures
        first.document_spec() == second.document_spec(),
{
    lemma_same_tables(first.actions, second.actions);
    lemma_same_tables(first.connections, second.connections);
    let one = declarations(first.resources);
    let other = declarations(second.resources);
    assert(one.dom() =~= other.dom());
    assert forall|name: Seq<char>| #[trigger] one.dom().contains(name) implies one[name] == other[name] by {
        assert(declared.resources.dom().contains(name));
        if lookup(declared.resources[name], "capabilities"@) is None {
            let some = choose|list: Seq<JsonValue>| #[trigger]
                is_capability_list(list, declared.actions, name) && one[name] == with_member(
                    declared.resources[name],
                    "capabilities"@,
                    JsonValue::Array(list),
                );
            let same = choose|list: Seq<JsonValue>| #[trigger]
                is_capability_list(list, declared.actions, name) && other[name] == with_member(
                    declared.resources[name],
                    "capabilities"@,
                    JsonValue::Array(list),
                );
            lemma_same_capabilities(some, same, declared.actions, name);
        }
    }
    assert(one =~= other);
    lemma_same_tables(first.resources, second.resources);
}

proof fn lemma_same_capabilities(
    first: Seq<JsonValue>,
    second: Seq<JsonValue>,
    actions: Map<Seq<char>, Members>,
    resource: Seq<char>,
)
    requires
        is_capability_list(first, actions, resource),
        is_capability_list(second, actions, resource),
    ensures
        first == second,
{
    let one = choose|capabilities: Seq<Seq<char>>| #[trigger]
        ascending(capabilities) && first == capabilities.map_values(|capability: Seq<char>| JsonValue::Text(capability))
            && forall|capability: Seq<char>| #[trigger]
            capabilities.contains(capability) <==> granted(actions, resource, capability);
    let other = choose|capabilities: Seq<Seq<char>>| #[trigger]
        ascending(capabilities) && second == capabilities.map_values(|capability: Seq<char>| JsonValue::Text(capability))
            && forall|capability: Seq<char>| #[trigger]
            capabilities.contains(capability) <==> granted(actions, resource, capability);
    assert forall|capability: Seq<char>| #[trigger] one.contains(capability) <==> other.contains(capability) by {
        assert(one.contains(capability) <==> granted(actions, resource, capability));
        assert(other.contains(capability) <==> granted(actions, resource, capability));
    }
    lemma_ascending_once(one, other);
}

/// These members are declared at a place of a section.
pub open spec fn declares_at(fragments: Seq<FragmentView>, section: int, place: int, members: Members) -> bool {
    &&& 0 <= section < fragments.len()
    &&& fragments[section].values matches Ok(values) && 0 <= place < values.len() && values[place] == JsonValue::Object(
        members,
    )
}

/// The sections are accepted, and assemble to this.
pub open spec fn assembles_to(fragments: Seq<FragmentView>, assembled: Assembled) -> bool {
    declare_fragments(Declared::none(), 0, 0, fragments) matches Ok(declared) && assembly_fault(declared) is None
        && is_assembly(declared, assembled)
}

/// The name of the list that the declarations of a kind stand in.
pub open spec fn list_name(kind: Seq<char>) -> Seq<char> {
    kind + "s"@
}

/// What is declared of one kind.
spec fn of_kind(declared: Declared, kind: Seq<char>) -> Map<Seq<char>, Members> {
    if kind == "action"@ {
        declared.actions
    } else if kind == "resource"@ {
        declared.resources
    } else {
        declared.connections
    }
}

spec fn is_kind(kind: Seq<char>) -> bool {
    kind == "action"@ || kind == "resource"@ || kind == "connection"@
}

/// The kind and the name of a named declaration.
spec fn is_named(value: JsonValue, kind: Seq<char>, name: Seq<char>) -> bool {
    value matches JsonValue::Object(members) && lookup(members, "kind"@) == Some(JsonValue::Text(kind)) && lookup(
        members,
        "name"@,
    ) == Some(JsonValue::Text(name)) && is_kind(kind)
}

spec fn is_extension(value: JsonValue) -> bool {
    value matches JsonValue::Object(members) && lookup(members, "kind"@) == Some(JsonValue::Text("extension"@))
}

/// A declaration is kept among those read so far.
spec fn is_kept(declared: Declared, value: JsonValue) -> bool {
    value matches JsonValue::Object(members) && lookup(members, "kind"@) matches Some(JsonValue::Text(kind)) && if kind
        == "extension"@ {
        declared.extension == Some(without_member(members, "kind"@))
    } else {
        &&& is_kind(kind)
        &&& lookup(members, "name"@) matches Some(JsonValue::Text(name)) && of_kind(declared, kind).dom().contains(name)
            && of_kind(declared, kind)[name] == without_member(without_member(members, "kind"@), "name"@)
    }
}

proof fn lemma_kinds()
    ensures
        "action"@ != "resource"@,
        "action"@ != "connection"@,
        "resource"@ != "connection"@,
        "extension"@ != "action"@,
        "extension"@ != "resource"@,
        "extension"@ != "connection"@,
        "kind"@ != "name"@,
        "actions"@ != "resources"@,
        "actions"@ != "connections"@,
        "resources"@ != "connections"@,
        list_name("action"@) == "actions"@,
        list_name("resource"@) == "resources"@,
        list_name("connection"@) == "connections"@,
{
    reveal_strlit("action");
    reveal_strlit("resource");
    reveal_strlit("connection");
    reveal_strlit("extension");
    reveal_strlit("actions");
    reveal_strlit("resources");
    reveal_strlit("connections");
    reveal_strlit("kind");
    reveal_strlit("name");
    reveal_strlit("s");
    assert("action"@[0] == 'a' && "resource"@[0] == 'r' && "connection"@[0] == 'c' && "extension"@[0] == 'e');
    assert("kind"@[0] == 'k' && "name"@[0] == 'n');
    assert("actions"@[0] == 'a' && "resources"@[0] == 'r' && "connections"@[0] == 'c');
    assert(list_name("action"@) =~= "actions"@);
    assert(list_name("resource"@) =~= "resources"@);
    assert(list_name("connection"@) =~= "connections"@);
}

/// One more declaration is kept, with those before it, and nothing else is added.
proof fn lemma_declared(declared: Declared, value: JsonValue)
    requires
        declare(declared, value) is Ok,
    ensures
        is_kept(declare(declared, value)->Ok_0, value),
        forall|other: JsonValue| #[trigger] is_kept(declared, other) ==> is_kept(declare(declared, value)->Ok_0, other),
        forall|kind: Seq<char>, name: Seq<char>|
            is_kind(kind) && #[trigger] of_kind(declare(declared, value)->Ok_0, kind).dom().contains(name) ==> of_kind(
                declared,
                kind,
            ).dom().contains(name) || is_named(value, kind, name),
        declare(declared, value)->Ok_0.extension is Some ==> declared.extension is Some || is_extension(value),
{
    lemma_kinds();
    let members = value->Object_0;
    lemma_take_others(members, "kind"@, "name"@);
}

proof fn lemma_all_declared(declared: Declared, count: int, list: Seq<JsonValue>)
    requires
        declare_all(declared, count, list) is Ok,
    ensures
        forall|i: int| 0 <= i < list.len() ==> is_kept(declare_all(declared, count, list)->Ok_0, #[trigger] list[i]),
        forall|other: JsonValue| #[trigger]
            is_kept(declared, other) ==> is_kept(declare_all(declared, count, list)->Ok_0, other),
        forall|kind: Seq<char>, name: Seq<char>|
            is_kind(kind) && #[trigger] of_kind(declare_all(declared, count, list)->Ok_0, kind).dom().contains(name)
                ==> of_kind(declared, kind).dom().contains(name) || exists|i: int|
                0 <= i < list.len() && is_named(#[trigger] list[i], kind, name),
        declare_all(declared, count, list)->Ok_0.extension is Some ==> declared.extension is Some || exists|i: int|
            0 <= i < list.len() && is_extension(#[trigger] list[i]),
    decreases list.len(),
{
    if list.len() > 0 {
        let next = declare(declared, list[0])->Ok_0;
        let rest = list.drop_first();
        let after = declare_all(declared, count, list)->Ok_0;
        lemma_declared(declared, list[0]);
        lemma_all_declared(next, count + 1, rest);
        assert forall|i: int| 0 <= i < list.len() implies is_kept(after, #[trigger] list[i]) by {
            if i > 0 {
                assert(rest[i - 1] == list[i]);
            }
        }
        assert forall|kind: Seq<char>, name: Seq<char>|
            is_kind(kind) && #[trigger] of_kind(after, kind).dom().contains(name) implies of_kind(
            declared,
            kind,
        ).dom().contains(name) || exists|i: int| 0 <= i < list.len() && is_named(#[trigger] list[i], kind, name) by {
            if !of_kind(declared, kind).dom().contains(name) {
                if of_kind(next, kind).dom().contains(name) {
                    assert(is_named(list[0], kind, name));
                } else {
                    let i = choose|i: int| 0 <= i < rest.len() && is_named(#[trigger] rest[i], kind, name);
                    assert(list[i + 1] == rest[i]);
                }
            }
        }
        if after.extension is Some && declared.extension is None {
            if next.extension is Some {
                assert(is_extension(list[0]));
            } else {
                let i = choose|i: int| 0 <= i < rest.len() && is_extension(#[trigger] rest[i]);
                assert(list[i + 1] == rest[i]);
            }
        }
    }
}

/// A declaration of the sections.
spec fn is_declared(fragments: Seq<FragmentView>, value: JsonValue) -> bool {
    exists|section: int, place: int| #[trigger] stands_at(fragments, section, place, value)
}

spec fn stands_at(fragments: Seq<FragmentView>, section: int, place: int, value: JsonValue) -> bool {
    &&& 0 <= section < fragments.len()
    &&& fragments[section].values matches Ok(values) && 0 <= place < values.len() && values[place] == value
}

proof fn lemma_stands_later(fragments: Seq<FragmentView>, value: JsonValue)
    requires
        fragments.len() > 0,
        is_declared(fragments.drop_first(), value),
    ensures
        is_declared(fragments, value),
{
    let rest = fragments.drop_first();
    let (section, place) = choose|section: int, place: int| #[trigger] stands_at(rest, section, place, value);
    assert(rest[section] == fragments[section + 1]);
    assert(stands_at(fragments, section + 1, place, value));
}

proof fn lemma_fragments_declared(declared: Declared, count: int, total: int, fragments: Seq<FragmentView>)
    requires
        declare_fragments(declared, count, total, fragments) is Ok,
    ensures
        ({
            let after = declare_fragments(declared, count, total, fragments)->Ok_0;
            &&& forall|value: JsonValue| #[trigger] is_declared(fragments, value) ==> is_kept(after, value)
            &&& forall|other: JsonValue| #[trigger] is_kept(declared, other) ==> is_kept(after, other)
            &&& forall|kind: Seq<char>, name: Seq<char>|
                is_kind(kind) && #[trigger] of_kind(after, kind).dom().contains(name) ==> of_kind(
                    declared,
                    kind,
                ).dom().contains(name) || exists|value: JsonValue| #[trigger]
                    is_declared(fragments, value) && is_named(value, kind, name)
            &&& after.extension is Some ==> declared.extension is Some || exists|value: JsonValue| #[trigger]
                is_declared(fragments, value) && is_extension(value)
        }),
    decreases fragments.len(),
{
    let after = declare_fragments(declared, count, total, fragments)->Ok_0;
    if fragments.len() > 0 {
        let values = fragments[0].values->Ok_0;
        let next = declare_all(declared, count, values)->Ok_0;
        let rest = fragments.drop_first();
        lemma_all_declared(declared, count, values);
        lemma_fragments_declared(next, count + values.len(), total + fragments[0].size, rest);
        assert forall|value: JsonValue| #[trigger] is_declared(fragments, value) implies is_kept(after, value) by {
            let (section, place) = choose|section: int, place: int| #[trigger]
                stands_at(fragments, section, place, value);
            if section == 0 {
                assert(values[place] == value);
                assert(is_kept(next, value));
            } else {
                assert(rest[section - 1] == fragments[section]);
                assert(stands_at(rest, section - 1, place, value));
                assert(is_declared(rest, value));
            }
        }
        assert forall|kind: Seq<char>, name: Seq<char>|
            is_kind(kind) && #[trigger] of_kind(after, kind).dom().contains(name) implies of_kind(
            declared,
            kind,
        ).dom().contains(name) || exists|value: JsonValue| #[trigger]
            is_declared(fragments, value) && is_named(value, kind, name) by {
            if !of_kind(declared, kind).dom().contains(name) {
                if of_kind(next, kind).dom().contains(name) {
                    let i = choose|i: int| 0 <= i < values.len() && is_named(#[trigger] values[i], kind, name);
                    assert(stands_at(fragments, 0, i, values[i]));
                    assert(is_declared(fragments, values[i]));
                } else {
                    let value = choose|value: JsonValue| #[trigger]
                        is_declared(rest, value) && is_named(value, kind, name);
                    lemma_stands_later(fragments, value);
                    assert(is_declared(fragments, value));
                }
            }
        }
        if after.extension is Some && declared.extension is None {
            if next.extension is Some {
                let i = choose|i: int| 0 <= i < values.len() && is_extension(#[trigger] values[i]);
                assert(stands_at(fragments, 0, i, values[i]));
                assert(is_declared(fragments, values[i]));
            } else {
                let value = choose|value: JsonValue| #[trigger] is_declared(rest, value) && is_extension(value);
                lemma_stands_later(fragments, value);
                assert(is_declared(fragments, value));
            }
        }
    }
}

/// What a table is looked up for in a document.
proof fn lemma_table_lookup(table: Table<Vec<(String, Json)>>, name: Seq<char>)
    requires
        table.wf(),
    ensures
        lookup(table_value(table.entries@)->Object_0, name) == if declarations(table).dom().contains(name) {
            Some(JsonValue::Object(declarations(table)[name]))
        } else {
            None
        },
{
    let members = table_value(table.entries@)->Object_0;
    law_lookup_finds_the_first(members, name);
    if declarations(table).dom().contains(name) {
        let at = table.names().index_of(name);
        assert(table.names()[at] == name);
        assert(members[at].0 == name);
    }
    if let Some(value) = lookup(members, name) {
        let index = choose|index: int| 0 <= index < members.len() && #[trigger] members[index] == (name, value);
        table.lemma_entry(index);
        assert(table.entries@[index].0@ == name);
    }
}

/// What the lists of a document hold under a name.
proof fn lemma_document(assembled: Assembled, kind: Seq<char>, name: Seq<char>)
    requires
        is_kind(kind),
        assembled.actions.wf() && assembled.resources.wf() && assembled.connections.wf(),
    ensures
        ({
            let table = if kind == "action"@ {
                declarations(assembled.actions)
            } else if kind == "resource"@ {
                declarations(assembled.resources)
            } else {
                declarations(assembled.connections)
            };
            &&& member(assembled.document_spec(), list_name(kind)) matches Some(list) && list is Object && member(list, name)
                == if table.dom().contains(name) {
                Some(JsonValue::Object(table[name]))
            } else {
                None
            }
        }),
{
    lemma_kinds();
    let first = with_member(members_of(assembled.extension@), "actions"@, table_value(assembled.actions.entries@));
    let second = with_member(first, "resources"@, table_value(assembled.resources.entries@));
    law_put_member_changes_one(
        members_of(assembled.extension@),
        "actions"@,
        table_value(assembled.actions.entries@),
        "actions"@,
    );
    law_put_member_changes_one(first, "resources"@, table_value(assembled.resources.entries@), "actions"@);
    law_put_member_changes_one(second, "connections"@, table_value(assembled.connections.entries@), "actions"@);
    law_put_member_changes_one(second, "connections"@, table_value(assembled.connections.entries@), "resources"@);
    lemma_table_lookup(assembled.actions, name);
    lemma_table_lookup(assembled.resources, name);
    lemma_table_lookup(assembled.connections, name);
}

/// Every named declaration is found in the document under its kind and its name, with every
/// member that it declares besides these two, and with no other; a resource may gain its
/// capabilities, and nothing else.
pub proof fn law_declared_members_are_kept(
    fragments: Seq<FragmentView>,
    assembled: Assembled,
    section: int,
    place: int,
    members: Members,
    key: Seq<char>,
)
    requires
        assembles_to(fragments, assembled),
        declares_at(fragments, section, place, members),
        lookup(members, "kind"@) != Some(JsonValue::Text("extension"@)),
    ensures
        lookup(members, "kind"@) matches Some(JsonValue::Text(kind)) && {
            &&& kind == "action"@ || kind == "resource"@ || kind == "connection"@
            &&& lookup(members, "name"@) matches Some(JsonValue::Text(name)) && member(
                assembled.document_spec(),
                kind + "s"@,
            ) matches Some(list) && member(list, name) matches Some(JsonValue::Object(entry)) && (key != "kind"@ && key
                != "name"@ ==> {
                &&& lookup(members, key) is Some ==> lookup(entry, key) == lookup(members, key)
                &&& lookup(members, key) is None && !(kind == "resource"@ && key == "capabilities"@) ==> lookup(entry, key)
                    is None
            })
        },
{
    let declared = declare_fragments(Declared::none(), 0, 0, fragments)->Ok_0;
    let value = JsonValue::Object(members);
    lemma_kinds();
    lemma_fragments_declared(Declared::none(), 0, 0, fragments);
    assert(stands_at(fragments, section, place, value));
    assert(is_declared(fragments, value));
    assert(is_kept(declared, value));
    let kind = lookup(members, "kind"@)->0->Text_0;
    let name = lookup(members, "name"@)->0->Text_0;
    lemma_document(assembled, kind, name);
    let part = without_member(members, "kind"@);
    let named = without_member(part, "name"@);
    if key != "kind"@ && key != "name"@ {
        lemma_take_others(members, "kind"@, key);
        lemma_take_others(part, "name"@, key);
    }
    if kind == "resource"@ {
        let after = declarations(assembled.resources)[name];
        if lookup(named, "capabilities"@) is None {
            let list = choose|list: Seq<JsonValue>| #[trigger]
                is_capability_list(list, declared.actions, name) && after == with_member(
                    named,
                    "capabilities"@,
                    JsonValue::Array(list),
                );
            law_put_member_changes_one(named, "capabilities"@, JsonValue::Array(list), key);
        }
    }
}

/// The document names under each kind only what a declaration of that kind names.
pub proof fn law_only_declarations_are_assembled(
    fragments: Seq<FragmentView>,
    assembled: Assembled,
    kind: Seq<char>,
    name: Seq<char>,
)
    requires
        assembles_to(fragments, assembled),
        kind == "action"@ || kind == "resource"@ || kind == "connection"@,
        member(assembled.document_spec(), kind + "s"@) matches Some(list) && member(list, name) is Some,
    ensures
        exists|section: int, place: int, members: Members| #[trigger]
            declares_at(fragments, section, place, members) && lookup(members, "kind"@) == Some(JsonValue::Text(kind))
                && lookup(members, "name"@) == Some(JsonValue::Text(name)),
{
    let declared = declare_fragments(Declared::none(), 0, 0, fragments)->Ok_0;
    lemma_kinds();
    lemma_document(assembled, kind, name);
    lemma_fragments_declared(Declared::none(), 0, 0, fragments);
    assert(of_kind(declared, kind).dom().contains(name));
    let value = choose|value: JsonValue| #[trigger] is_declared(fragments, value) && is_named(value, kind, name);
    let (section, place) = choose|section: int, place: int| #[trigger] stands_at(fragments, section, place, value);
    assert(declares_at(fragments, section, place, value->Object_0));
}

/// The extension's own members stand in the document as they were declared, and the document
/// has no others besides the three lists.
pub proof fn law_extension_members_are_kept(
    fragments: Seq<FragmentView>,
    assembled: Assembled,
    section: int,
    place: int,
    members: Members,
    key: Seq<char>,
)
    requires
        assembles_to(fragments, assembled),
        declares_at(fragments, section, place, members),
        lookup(members, "kind"@) == Some(JsonValue::Text("extension"@)),
        key != "kind"@,
        key != "actions"@,
        key != "resources"@,
        key != "connections"@,
    ensures
        member(assembled.document_spec(), key) == lookup(members, key),
{
    let declared = declare_fragments(Declared::none(), 0, 0, fragments)->Ok_0;
    let value = JsonValue::Object(members);
    lemma_kinds();
    lemma_fragments_declared(Declared::none(), 0, 0, fragments);
    assert(stands_at(fragments, section, place, value));
    assert(is_declared(fragments, value));
    assert(is_kept(declared, value));
    lemma_take_others(members, "kind"@, key);
    lemma_take_others(without_member(members, "kind"@), "actions"@, key);
    let first = with_member(members_of(assembled.extension@), "actions"@, table_value(assembled.actions.entries@));
    let second = with_member(first, "resources"@, table_value(assembled.resources.entries@));
    law_put_member_changes_one(
        members_of(assembled.extension@),
        "actions"@,
        table_value(assembled.actions.entries@),
        key,
    );
    law_put_member_changes_one(first, "resources"@, table_value(assembled.resources.entries@), key);
    law_put_member_changes_one(second, "connections"@, table_value(assembled.connections.entries@), key);
}

/// An accepted extension lists its actions: each action that is declared stands in the list,
/// each text of the list is the name of a declared action, and none stands there twice.
pub proof fn law_listed_actions_are_declared(
    fragments: Seq<FragmentView>,
    assembled: Assembled,
    section: int,
    place: int,
    members: Members,
)
    requires
        assembles_to(fragments, assembled),
        declares_at(fragments, section, place, members),
        lookup(members, "kind"@) == Some(JsonValue::Text("extension"@)),
    ensures
        lookup(members, "resources"@) is None,
        lookup(members, "connections"@) is None,
        lookup(members, "actions"@) matches Some(JsonValue::Array(list)) && {
            &&& forall|i: int, j: int| 0 <= i < j < list.len() ==> #[trigger] list[i] != #[trigger] list[j]
            &&& forall|name: Seq<char>| #[trigger]
                list.contains(JsonValue::Text(name)) <==> (exists|at: int, index: int, action: Members| #[trigger]
                    declares_at(fragments, at, index, action) && lookup(action, "kind"@) == Some(
                        JsonValue::Text("action"@),
                    ) && lookup(action, "name"@) == Some(JsonValue::Text(name)))
            &&& forall|i: int| 0 <= i < list.len() ==> (#[trigger] list[i]) is Text
        },
{
    let declared = declare_fragments(Declared::none(), 0, 0, fragments)->Ok_0;
    let value = JsonValue::Object(members);
    lemma_kinds();
    lemma_fragments_declared(Declared::none(), 0, 0, fragments);
    assert(stands_at(fragments, section, place, value));
    assert(is_declared(fragments, value));
    assert(is_kept(declared, value));
    reveal_strlit("kind");
    reveal_strlit("resources");
    reveal_strlit("connections");
    reveal_strlit("actions");
    assert("kind"@.len() != "resources"@.len() && "kind"@.len() != "connections"@.len() && "kind"@.len()
        != "actions"@.len());
    lemma_take_others(members, "kind"@, "resources"@);
    lemma_take_others(members, "kind"@, "connections"@);
    lemma_take_others(members, "kind"@, "actions"@);
    let list = lookup(members, "actions"@)->0->Array_0;
    assert(lists_actions(list, declared.actions.dom()));
    assert forall|name: Seq<char>| #[trigger] list.contains(JsonValue::Text(name)) <==> (exists|
        at: int,
        index: int,
        action: Members,
    | #[trigger]
        declares_at(fragments, at, index, action) && lookup(action, "kind"@) == Some(JsonValue::Text("action"@)) && lookup(
            action,
            "name"@,
        ) == Some(JsonValue::Text(name))) by {
        if list.contains(JsonValue::Text(name)) {
            let i = choose|i: int| 0 <= i < list.len() && list[i] == JsonValue::Text(name);
            assert(list[i] is Text && declared.actions.dom().contains(list[i]->Text_0));
            assert(of_kind(declared, "action"@).dom().contains(name));
            let found = choose|found: JsonValue| #[trigger]
                is_declared(fragments, found) && is_named(found, "action"@, name);
            let (at, index) = choose|at: int, index: int| #[trigger] stands_at(fragments, at, index, found);
            assert(declares_at(fragments, at, index, found->Object_0));
        }
        if exists|at: int, index: int, action: Members| #[trigger]
            declares_at(fragments, at, index, action) && lookup(action, "kind"@) == Some(JsonValue::Text("action"@))
                && lookup(action, "name"@) == Some(JsonValue::Text(name)) {
            let (at, index, action) = choose|at: int, index: int, action: Members| #[trigger]
                declares_at(fragments, at, index, action) && lookup(action, "kind"@) == Some(JsonValue::Text("action"@))
                    && lookup(action, "name"@) == Some(JsonValue::Text(name));
            assert(stands_at(fragments, at, index, JsonValue::Object(action)));
            assert(is_declared(fragments, JsonValue::Object(action)));
            assert(is_kept(declared, JsonValue::Object(action)));
            assert(declared.actions.dom().contains(name));
        }
    }
}

/// A resource that declares no capabilities gets, each once and in ascending order, those that
/// the declared actions use of it.
pub proof fn law_resources_get_the_capabilities_in_use(
    fragments: Seq<FragmentView>,
    assembled: Assembled,
    section: int,
    place: int,
    members: Members,
)
    requires
        assembles_to(fragments, assembled),
        declares_at(fragments, section, place, members),
        lookup(members, "kind"@) == Some(JsonValue::Text("resource"@)),
        lookup(members, "capabilities"@) is None,
    ensures
        lookup(members, "name"@) matches Some(JsonValue::Text(name)) && member(
            assembled.document_spec(),
            "resources"@,
        ) matches Some(list) && member(list, name) matches Some(entry) && member(entry, "capabilities"@) matches Some(
            JsonValue::Array(capabilities),
        ) && {
            &&& forall|i: int| 0 <= i < capabilities.len() ==> (#[trigger] capabilities[i]) is Text
            &&& forall|i: int, j: int|
                0 <= i < j < capabilities.len() ==> text_before(
                    (#[trigger] capabilities[i])->Text_0,
                    (#[trigger] capabilities[j])->Text_0,
                )
            &&& forall|capability: Seq<char>| #[trigger]
                capabilities.contains(JsonValue::Text(capability)) <==> (exists|at: int, index: int, action: Members| #[trigger]
                    declares_at(fragments, at, index, action) && uses(action, name, capability))
        },
{
    let declared = declare_fragments(Declared::none(), 0, 0, fragments)->Ok_0;
    let value = JsonValue::Object(members);
    lemma_kinds();
    reveal_strlit("capabilities");
    reveal_strlit("kind");
    reveal_strlit("name");
    reveal_strlit("resources");
    assert("capabilities"@.len() == 12 && "kind"@.len() == 4 && "name"@.len() == 4 && "resources"@.len() == 9);
    lemma_fragments_declared(Declared::none(), 0, 0, fragments);
    assert(stands_at(fragments, section, place, value));
    assert(is_declared(fragments, value));
    assert(is_kept(declared, value));
    let name = lookup(members, "name"@)->0->Text_0;
    lemma_document(assembled, "resource"@, name);
    let part = without_member(members, "kind"@);
    let named = without_member(part, "name"@);
    lemma_take_others(members, "kind"@, "capabilities"@);
    lemma_take_others(part, "name"@, "capabilities"@);
    let after = declarations(assembled.resources)[name];
    let list = choose|list: Seq<JsonValue>| #[trigger]
        is_capability_list(list, declared.actions, name) && after == with_member(
            named,
            "capabilities"@,
            JsonValue::Array(list),
        );
    law_put_member_changes_one(named, "capabilities"@, JsonValue::Array(list), "capabilities"@);
    let texts = choose|texts: Seq<Seq<char>>| #[trigger]
        ascending(texts) && list == texts.map_values(|capability: Seq<char>| JsonValue::Text(capability)) && forall|
            capability: Seq<char>,
        | #[trigger]
            texts.contains(capability) <==> granted(declared.actions, name, capability);
    assert forall|capability: Seq<char>| #[trigger] list.contains(JsonValue::Text(capability)) <==> (exists|
        at: int,
        index: int,
        action: Members,
    | #[trigger]
        declares_at(fragments, at, index, action) && uses(action, name, capability)) by {
        assert(list.contains(JsonValue::Text(capability)) == texts.contains(capability)) by {
            if texts.contains(capability) {
                let i = choose|i: int| 0 <= i < texts.len() && texts[i] == capability;
                assert(list[i] == JsonValue::Text(capability));
            }
            if list.contains(JsonValue::Text(capability)) {
                let i = choose|i: int| 0 <= i < list.len() && list[i] == JsonValue::Text(capability);
                assert(texts[i] == capability);
            }
        }
        if granted(declared.actions, name, capability) {
            let action = choose|action: Seq<char>| #[trigger]
                declared.actions.dom().contains(action) && grants(declared.actions[action], name, capability);
            assert(of_kind(declared, "action"@).dom().contains(action));
            let found = choose|found: JsonValue| #[trigger]
                is_declared(fragments, found) && is_named(found, "action"@, action);
            let (at, index) = choose|at: int, index: int| #[trigger] stands_at(fragments, at, index, found);
            let said = found->Object_0;
            assert(is_kept(declared, found));
            lemma_take_others(said, "kind"@, "resources"@);
            lemma_take_others(without_member(said, "kind"@), "name"@, "resources"@);
            assert(declares_at(fragments, at, index, said));
            assert(uses(said, name, capability));
        }
        if exists|at: int, index: int, action: Members| #[trigger]
            declares_at(fragments, at, index, action) && uses(action, name, capability) {
            let (at, index, action) = choose|at: int, index: int, action: Members| #[trigger]
                declares_at(fragments, at, index, action) && uses(action, name, capability);
            assert(stands_at(fragments, at, index, JsonValue::Object(action)));
            assert(is_declared(fragments, JsonValue::Object(action)));
            assert(is_kept(declared, JsonValue::Object(action)));
            lemma_take_others(action, "kind"@, "resources"@);
            lemma_take_others(without_member(action, "kind"@), "name"@, "resources"@);
            let own = lookup(action, "name"@)->0->Text_0;
            assert(declared.actions.dom().contains(own) && grants(declared.actions[own], name, capability));
        }
    }
    assert forall|i: int, j: int| 0 <= i < j < list.len() implies text_before(
        (#[trigger] list[i])->Text_0,
        (#[trigger] list[j])->Text_0,
    ) by {
        assert(list[i]->Text_0 == texts[i] && list[j]->Text_0 == texts[j]);
    }
}

/// A declared action says that it uses a capability of a resource.
pub open spec fn uses(action: Members, resource: Seq<char>, capability: Seq<char>) -> bool {
    &&& lookup(action, "kind"@) == Some(JsonValue::Text("action"@))
    &&& lookup(action, "resources"@) matches Some(JsonValue::Object(entries)) && exists|
        i: int,
        j: int,
        capabilities: Seq<JsonValue>,
    |
        0 <= i < entries.len() && 0 <= j < capabilities.len() && #[trigger] entries[i] == (
            resource,
            JsonValue::Array(capabilities),
        ) && #[trigger] capabilities[j] == JsonValue::Text(capability)
}

/// A declaration says of which kind it is, and has a name unless it is the extension.
pub open spec fn is_proper(value: JsonValue) -> bool {
    value matches JsonValue::Object(members) && lookup(members, "kind"@) matches Some(JsonValue::Text(kind)) && (kind
        == "extension"@ || ((kind == "action"@ || kind == "resource"@ || kind == "connection"@) && lookup(
        members,
        "name"@,
    ) matches Some(JsonValue::Text(_))))
}

/// Two declarations that cannot stand together: two extensions, or two of one kind and name.
pub open spec fn clash(first: JsonValue, second: JsonValue) -> bool {
    &&& member(first, "kind"@) == member(second, "kind"@)
    &&& member(first, "kind"@) == Some(JsonValue::Text("extension"@)) || member(first, "name"@) == member(
        second,
        "name"@,
    )
}

/// A declaration cannot join those read so far.
spec fn is_taken(declared: Declared, value: JsonValue) -> bool {
    (is_extension(value) && declared.extension is Some) || exists|kind: Seq<char>, name: Seq<char>| #[trigger]
        is_named(value, kind, name) && of_kind(declared, kind).dom().contains(name)
}

proof fn lemma_declare_accepts(declared: Declared, value: JsonValue)
    ensures
        declare(declared, value) is Ok <==> is_proper(value) && !is_taken(declared, value),
{
    lemma_kinds();
    if let JsonValue::Object(members) = value {
        lemma_take_others(members, "kind"@, "name"@);
        if is_proper(value) && !is_extension(value) {
            let kind = lookup(members, "kind"@)->0->Text_0;
            let name = lookup(members, "name"@)->0->Text_0;
            assert(is_named(value, kind, name));
        }
    }
}

proof fn lemma_list_accepted(declared: Declared, count: int, list: Seq<JsonValue>)
    requires
        0 <= count <= MAX_PARTS,
    ensures
        declare_all(declared, count, list) is Ok <==> {
            &&& count + list.len() <= MAX_PARTS
            &&& forall|i: int| 0 <= i < list.len() ==> is_proper(#[trigger] list[i]) && !is_taken(declared, list[i])
            &&& forall|i: int, j: int| 0 <= i < j < list.len() ==> !clash(#[trigger] list[i], #[trigger] list[j])
        },
    decreases list.len(),
{
    if list.len() > 0 && count < MAX_PARTS {
        let rest = list.drop_first();
        lemma_kinds();
        lemma_declare_accepts(declared, list[0]);
        assert forall|i: int| 0 < i < list.len() implies #[trigger] list[i] == rest[i - 1] by {}
        if declare(declared, list[0]) is Ok {
            let next = declare(declared, list[0])->Ok_0;
            lemma_list_accepted(next, count + 1, rest);
            assert forall|value: JsonValue| is_proper(value) implies (#[trigger] is_taken(next, value) <==> is_taken(
                declared,
                value,
            ) || clash(list[0], value)) by {
                lemma_joined(declared, list[0], value);
            }
            assert forall|i: int| 0 <= i < rest.len() implies #[trigger] rest[i] == list[i + 1] by {}
            if declare_all(declared, count, list) is Ok {
                assert forall|i: int, j: int| 0 <= i < j < list.len() implies !clash(
                    #[trigger] list[i],
                    #[trigger] list[j],
                ) by {
                    assert(rest[j - 1] == list[j]);
                    if i > 0 {
                        assert(rest[i - 1] == list[i]);
                    }
                }
            }
        }
    }
}

/// A declaration is in the way of those with which it cannot stand together, and of no
/// others.
proof fn lemma_joined(declared: Declared, value: JsonValue, other: JsonValue)
    requires
        declare(declared, value) is Ok,
        is_proper(other),
    ensures
        is_taken(declare(declared, value)->Ok_0, other) <==> is_taken(declared, other) || clash(value, other),
{
    lemma_kinds();
    let next = declare(declared, value)->Ok_0;
    lemma_declare_accepts(declared, value);
    lemma_take_others(value->Object_0, "kind"@, "name"@);
    if !is_extension(other) {
        let kind = lookup(other->Object_0, "kind"@)->0->Text_0;
        let name = lookup(other->Object_0, "name"@)->0->Text_0;
        assert(is_named(other, kind, name));
        assert(is_taken(next, other) == of_kind(next, kind).dom().contains(name));
        assert(is_taken(declared, other) == of_kind(declared, kind).dom().contains(name));
    }
}

/// A list of declarations is accepted exactly where there are not too many, each is proper,
/// and no two of them clash.
pub proof fn law_proper_declarations_are_accepted(list: Seq<JsonValue>)
    ensures
        declare_all(Declared::none(), 0, list) is Ok <==> {
            &&& list.len() <= MAX_PARTS
            &&& forall|i: int| 0 <= i < list.len() ==> is_proper(#[trigger] list[i])
            &&& forall|i: int, j: int| 0 <= i < j < list.len() ==> !clash(#[trigger] list[i], #[trigger] list[j])
        },
{
    lemma_list_accepted(Declared::none(), 0, list);
    assert forall|value: JsonValue| !#[trigger] is_taken(Declared::none(), value) by {}
}

/// The declarations of all sections, in their order.
pub open spec fn all_values(fragments: Seq<FragmentView>) -> Seq<JsonValue>
    decreases fragments.len(),
{
    if fragments.len() == 0 {
        Seq::empty()
    } else {
        fragments[0].values->Ok_0 + all_values(fragments.drop_first())
    }
}

/// The bytes of all sections.
pub open spec fn all_bytes(fragments: Seq<FragmentView>) -> int
    decreases fragments.len(),
{
    if fragments.len() == 0 {
        0
    } else {
        fragments[0].size + all_bytes(fragments.drop_first())
    }
}

/// Sections that were read are taken as the one list of their declarations, as long as they
/// are not too large together.
pub proof fn law_sections_are_read_as_one(declared: Declared, count: int, total: int, fragments: Seq<FragmentView>)
    requires
        forall|i: int| 0 <= i < fragments.len() ==> (#[trigger] fragments[i]).values is Ok && fragments[i].size >= 0,
        total + all_bytes(fragments) <= MAX_COMPONENT_BYTES,
    ensures
        declare_fragments(declared, count, total, fragments) == match declare_all(declared, count, all_values(fragments)) {
            Ok(after) => Ok::<Declared, Fault>(after),
            Err(rejection) => Err(Fault::Rejected(rejection)),
        },
    decreases fragments.len(),
{
    if fragments.len() > 0 {
        let rest = fragments.drop_first();
        assert forall|i: int| 0 <= i < rest.len() implies (#[trigger] rest[i]).values is Ok && rest[i].size >= 0 by {
            assert(rest[i] == fragments[i + 1]);
        }
        lemma_bytes_positive(rest);
        let values = fragments[0].values->Ok_0;
        lemma_declare_concat(declared, count, values, all_values(rest));
        if let Ok(next) = declare_all(declared, count, values) {
            law_sections_are_read_as_one(next, count + values.len(), total + fragments[0].size, rest);
        }
    }
}

proof fn lemma_bytes_positive(fragments: Seq<FragmentView>)
    requires
        forall|i: int| 0 <= i < fragments.len() ==> (#[trigger] fragments[i]).size >= 0,
    ensures
        all_bytes(fragments) >= 0,
    decreases fragments.len(),
{
    if fragments.len() > 0 {
        let rest = fragments.drop_first();
        assert forall|i: int| 0 <= i < rest.len() implies (#[trigger] rest[i]).size >= 0 by {
            assert(rest[i] == fragments[i + 1]);
        }
        lemma_bytes_positive(rest);
    }
}

/// Accepted declarations assemble where the extension is among them, names no resources or
/// connections itself, and lists each declared action once and nothing else.
pub proof fn law_complete_declarations_assemble(
    fragments: Seq<FragmentView>,
    section: int,
    place: int,
    members: Members,
    list: Seq<JsonValue>,
)
    requires
        declare_fragments(Declared::none(), 0, 0, fragments) is Ok,
        declares_at(fragments, section, place, members),
        lookup(members, "kind"@) == Some(JsonValue::Text("extension"@)),
        lookup(members, "resources"@) is None,
        lookup(members, "connections"@) is None,
        lookup(members, "actions"@) == Some(JsonValue::Array(list)),
        forall|i: int| 0 <= i < list.len() ==> (#[trigger] list[i]) is Text,
        forall|i: int, j: int| 0 <= i < j < list.len() ==> #[trigger] list[i] != #[trigger] list[j],
        forall|name: Seq<char>| #[trigger]
            list.contains(JsonValue::Text(name)) <==> (exists|at: int, index: int, action: Members| #[trigger]
                declares_at(fragments, at, index, action) && lookup(action, "kind"@) == Some(JsonValue::Text("action"@))
                    && lookup(action, "name"@) == Some(JsonValue::Text(name))),
    ensures
        assembly_fault(declare_fragments(Declared::none(), 0, 0, fragments)->Ok_0) is None,
{
    let declared = declare_fragments(Declared::none(), 0, 0, fragments)->Ok_0;
    let value = JsonValue::Object(members);
    lemma_kinds();
    lemma_fragments_declared(Declared::none(), 0, 0, fragments);
    assert(stands_at(fragments, section, place, value));
    assert(is_declared(fragments, value));
    assert(is_kept(declared, value));
    reveal_strlit("kind");
    reveal_strlit("resources");
    reveal_strlit("connections");
    reveal_strlit("actions");
    assert("kind"@.len() != "resources"@.len() && "kind"@.len() != "connections"@.len() && "kind"@.len()
        != "actions"@.len());
    lemma_take_others(members, "kind"@, "resources"@);
    lemma_take_others(members, "kind"@, "connections"@);
    lemma_take_others(members, "kind"@, "actions"@);
    assert forall|i: int| 0 <= i < list.len() implies (#[trigger] list[i]) is Text && declared.actions.dom().contains(
        list[i]->Text_0,
    ) by {
        let name = list[i]->Text_0;
        assert(list.contains(JsonValue::Text(name)));
        let (at, index, action) = choose|at: int, index: int, action: Members| #[trigger]
            declares_at(fragments, at, index, action) && lookup(action, "kind"@) == Some(JsonValue::Text("action"@))
                && lookup(action, "name"@) == Some(JsonValue::Text(name));
        assert(stands_at(fragments, at, index, JsonValue::Object(action)));
        assert(is_declared(fragments, JsonValue::Object(action)));
        assert(is_kept(declared, JsonValue::Object(action)));
    }
    assert forall|name: Seq<char>| #[trigger] declared.actions.dom().contains(name) implies list.contains(
        JsonValue::Text(name),
    ) by {
        assert(of_kind(declared, "action"@).dom().contains(name));
        let found = choose|found: JsonValue| #[trigger]
            is_declared(fragments, found) && is_named(found, "action"@, name);
        let (at, index) = choose|at: int, index: int| #[trigger] stands_at(fragments, at, index, found);
        assert(declares_at(fragments, at, index, found->Object_0));
    }
    assert(lists_actions(list, declared.actions.dom()));
}

} // verus!
