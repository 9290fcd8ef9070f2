//! Preparing a local run from its arguments: the files that it names are read, and its
//! values checked, in the order in which a failure is reported.

use vstd::prelude::*;
use vstd::string::*;

use crate::completion::reader_names;
use crate::component::Finding;
use crate::inputs::{
    accept_item, accept_parameters, admit_token, bind_parameters, bound_parameters, file_entries, file_map,
    fixture_item, fixture_line, line_contents, require_reader, rewritten, select_action, serialized_exceeds,
    source_views, sources_fault, strings, take_object, text, token_variable, validate_object, variable_of, Arguments,
    BindFault, LocalSource, SourceFault, Variable, MAX_CONFIGURATION, MAX_FIXTURE_ITEM, MAX_PARAMETERS, MAX_TOKEN_BYTES,
};
use crate::json::{json_text, lemma_take_others, lookup, members_of, text_in, without_member, Json, JsonValue};
use crate::manifest::{Action, Capability, Manifest};
use crate::sealing::{is_source_id, new_source_id};
use crate::store::{Inputs, Setup};
use crate::table::Table;
use crate::text::{byte_count, decimal, lemma_text_order};
use crate::tool::Error;

verus! {

/// The error is about arguments that cannot be used, in these words.
pub open spec fn is_usage(error: Error, words: Seq<char>) -> bool {
    error matches Error::Usage(message) && message@ == words
}

/// The error is about a violated rule, in these words.
pub open spec fn is_invalid(error: Error, words: Seq<char>) -> bool {
    error matches Error::Invalid(message) && message@ == words
}

/// The supplied sources of a run: the id of each by the name it was supplied under, and
/// the sources by their ids.
pub struct Supplied {
    pub ids: Table<String>,
    pub sources: Table<LocalSource>,
}

impl Supplied {
    /// Both tables are in order, and every id stands for a source.
    pub open spec fn wf(&self) -> bool {
        &&& self.ids.wf()
        &&& self.sources.wf()
        &&& forall|name: Seq<char>| #[trigger]
            self.ids@.dom().contains(name) ==> self.sources@.dom().contains(self.ids@[name]@)
    }
}

/// Every source that is held was supplied for a name of its id.
pub open spec fn from_files<S: Fn(&String) -> Result<LocalSource, Error>>(
    files: Table<String>,
    supply: S,
    supplied: Supplied,
) -> bool {
    &&& supplied.wf()
    &&& supplied.ids@.dom() == files@.dom()
    &&& forall|name: Seq<char>| #[trigger] supplied.ids@.dom().contains(name) ==> is_source_id(supplied.ids@[name]@)
    &&& forall|id: Seq<char>| #[trigger]
        supplied.sources@.dom().contains(id) ==> exists|name: Seq<char>|
            {
                &&& #[trigger] files@.dom().contains(name)
                &&& supplied.ids@[name]@ == id
                &&& call_ensures(supply, (&files@[name],), Ok(supplied.sources@[id]))
            }
}

/// The sources by their ids after the first `end` were filed, of which an equal id leaves
/// the last.
pub open spec fn filed(ids: Seq<String>, read: Seq<LocalSource>, end: nat) -> Map<Seq<char>, LocalSource>
    decreases end,
{
    if end == 0 {
        Map::empty()
    } else {
        filed(ids, read, (end - 1) as nat).insert(ids[end - 1]@, read[end - 1])
    }
}

/// The sources that were read from these files one after the other.
pub open spec fn sources_read<S: Fn(&String) -> Result<LocalSource, Error>>(
    files: Seq<(String, String)>,
    supply: S,
    read: Seq<LocalSource>,
) -> bool {
    &&& read.len() <= files.len()
    &&& forall|i: int| 0 <= i < read.len() ==> call_ensures(supply, (&files[i].1,), Ok(#[trigger] read[i]))
}

/// The files are supplied under these ids, in their order: each name has the id of its
/// place, and each source is filed under it.
pub open spec fn supplied_under<S: Fn(&String) -> Result<LocalSource, Error>>(
    files: Table<String>,
    supply: S,
    ids: Seq<String>,
    supplied: Supplied,
) -> bool {
    &&& ids.len() == files.entries@.len()
    &&& supplied.wf()
    &&& supplied.ids@.dom() == files@.dom()
    &&& forall|i: int| 0 <= i < ids.len() ==> supplied.ids@[(#[trigger] files.entries@[i]).0@]@ == ids[i]@
    &&& exists|read: Seq<LocalSource>|
        {
            &&& #[trigger] sources_read(files.entries@, supply, read)
            &&& read.len() == ids.len()
            &&& supplied.sources@ == filed(ids, read, ids.len())
        }
}

/// A file can be supplied.
pub open spec fn can_supply<S: Fn(&String) -> Result<LocalSource, Error>>(supply: S, path: String) -> bool {
    exists|source: LocalSource| call_ensures(supply, (&path,), Ok(source))
}

/// The file at `index` could not be supplied, and those before it could.
pub open spec fn file_refused<S: Fn(&String) -> Result<LocalSource, Error>>(
    files: Seq<(String, String)>,
    supply: S,
    index: int,
    error: Error,
) -> bool {
    &&& 0 <= index < files.len()
    &&& call_ensures(supply, (&files[index].1,), Err(error))
    &&& forall|i: int| 0 <= i < index ==> can_supply(supply, (#[trigger] files[i]).1)
}

proof fn lemma_filed(ids: Seq<String>, read: Seq<LocalSource>, end: nat, id: Seq<char>)
    requires
        end <= ids.len(),
        end <= read.len(),
    ensures
        filed(ids, read, end).dom().contains(id) <==> exists|i: int| 0 <= i < end && (#[trigger] ids[i])@ == id,
        filed(ids, read, end).dom().contains(id) ==> exists|i: int|
            0 <= i < end && (#[trigger] ids[i])@ == id && filed(ids, read, end)[id] == read[i],
    decreases end,
{
    if end > 0 {
        lemma_filed(ids, read, (end - 1) as nat, id);
        let earlier = filed(ids, read, (end - 1) as nat);
        if ids[end - 1]@ != id && earlier.dom().contains(id) {
            let i = choose|i: int| 0 <= i < end - 1 && (#[trigger] ids[i])@ == id && earlier[id] == read[i];
            assert(ids[i]@ == id);
        }
    }
}

/// Takes the named files as sources under these ids, one for each. `supply` reads a file.
pub fn supply_under<S: Fn(&String) -> Result<LocalSource, Error>>(files: &Table<String>, drawn: &Vec<String>, supply: &S) -> (result: Result<
    Supplied,
    Error,
>)
    requires
        files.wf(),
        drawn@.len() == files.entries@.len(),
        forall|path: &String| call_requires(*supply, (path,)),
    ensures
        match result {
            Ok(supplied) => supplied_under(*files, *supply, drawn@, supplied),
            Err(error) => exists|index: int| #[trigger] file_refused(files.entries@, *supply, index, error),
        },
{
    let mut ids: Table<String> = Table::new();
    let mut sources: Table<LocalSource> = Table::new();
    let ghost mut read: Seq<LocalSource> = Seq::empty();
    let mut index: usize = 0;
    assert(sources@ =~= Map::empty());
    while index < files.entries.len()
        invariant
            index <= files.entries.len(),
            files.wf(),
            drawn@.len() == files.entries@.len(),
            ids.wf(),
            sources.wf(),
            forall|path: &String| call_requires(*supply, (path,)),
            forall|name: Seq<char>| #[trigger]
                ids@.dom().contains(name) <==> exists|i: int| 0 <= i < index && (#[trigger] files.entries@[i]).0@ == name,
            forall|i: int| 0 <= i < index ==> ids@[(#[trigger] files.entries@[i]).0@]@ == drawn@[i]@,
            read.len() == index,
            sources_read(files.entries@, *supply, read),
            sources@ == filed(drawn@, read, index as nat),
            forall|i: int| 0 <= i < index ==> can_supply(*supply, (#[trigger] files.entries@[i]).1),
        decreases files.entries.len() - index,
    {
        let entry = &files.entries[index];
        let source = match supply(&entry.1) {
            Ok(source) => source,
            Err(error) => {
                assert(file_refused(files.entries@, *supply, index as int, error));
                return Err(error);
            },
        };
        let ghost held = source;
        assert(can_supply(*supply, entry.1));
        let ghost before = ids@;
        let ghost earlier = read;
        ids.insert(entry.0.clone(), drawn[index].clone());
        sources.insert(drawn[index].clone(), source);
        proof {
            read = read.push(held);
            lemma_filed_same(drawn@, earlier, read, index as nat);
            assert(sources_read(files.entries@, *supply, read)) by {
                assert forall|i: int| 0 <= i < read.len() implies call_ensures(
                    *supply,
                    (&files.entries@[i].1,),
                    Ok(#[trigger] read[i]),
                ) by {
                    if i < index {
                        assert(read[i] == earlier[i]);
                    }
                }
            }
            let name = entry.0@;
            assert forall|i: int| 0 <= i < index + 1 implies ids@[(#[trigger] files.entries@[i]).0@]@ == drawn@[i]@ by {
                if i < index {
                    assert(files.names()[i] == files.entries@[i].0@ && files.names()[index as int] == name);
                    lemma_text_order(name, name);
                    assert(files.entries@[i].0@ != name);
                    assert(before.dom().contains(files.entries@[i].0@));
                }
            }
        }
        index += 1;
    }
    let supplied = Supplied { ids, sources };
    proof {
        assert forall|name: Seq<char>| supplied.ids@.dom().contains(name) <==> files@.dom().contains(name) by {
            if supplied.ids@.dom().contains(name) {
                let i = choose|i: int| 0 <= i < index && (#[trigger] files.entries@[i]).0@ == name;
                files.lemma_entry(i);
            }
            if files@.dom().contains(name) {
                let at = files.names().index_of(name);
                assert(files.names()[at] == name);
                assert(files.entries@[at].0@ == name);
            }
        }
        assert(supplied.ids@.dom() =~= files@.dom());
        assert forall|name: Seq<char>| #[trigger] supplied.ids@.dom().contains(name) implies supplied.sources@.dom().contains(
            supplied.ids@[name]@,
        ) by {
            let i = choose|i: int| 0 <= i < index && (#[trigger] files.entries@[i]).0@ == name;
            assert(supplied.ids@[files.entries@[i].0@]@ == drawn@[i]@);
            lemma_filed(drawn@, read, index as nat, drawn@[i]@);
        }
        assert(sources_read(files.entries@, *supply, read) && supplied.sources@ == filed(drawn@, read, drawn@.len()));
    }
    Ok(supplied)
}

proof fn lemma_filed_same(ids: Seq<String>, first: Seq<LocalSource>, second: Seq<LocalSource>, end: nat)
    requires
        end <= first.len(),
        first.is_prefix_of(second),
    ensures
        filed(ids, first, end) == filed(ids, second, end),
    decreases end,
{
    if end > 0 {
        lemma_filed_same(ids, first, second, (end - 1) as nat);
        assert(first[end - 1] == second[end - 1]);
    }
}

proof fn lemma_from_files<S: Fn(&String) -> Result<LocalSource, Error>>(
    files: Table<String>,
    supply: S,
    ids: Seq<String>,
    supplied: Supplied,
)
    requires
        files.wf(),
        supplied_under(files, supply, ids, supplied),
        forall|i: int| 0 <= i < ids.len() ==> is_source_id((#[trigger] ids[i])@),
    ensures
        from_files(files, supply, supplied),
{
    let read = choose|read: Seq<LocalSource>|
        {
            &&& #[trigger] sources_read(files.entries@, supply, read)
            &&& read.len() == ids.len()
            &&& supplied.sources@ == filed(ids, read, ids.len())
        };
    assert forall|name: Seq<char>| #[trigger] supplied.ids@.dom().contains(name) implies is_source_id(
        supplied.ids@[name]@,
    ) by {
        let at = files.names().index_of(name);
        assert(files@.dom().contains(name));
        assert(files.names()[at] == name);
        assert(supplied.ids@[files.entries@[at].0@]@ == ids[at]@);
    }
    assert forall|id: Seq<char>| #[trigger] supplied.sources@.dom().contains(id) implies exists|name: Seq<char>|
        {
            &&& #[trigger] files@.dom().contains(name)
            &&& supplied.ids@[name]@ == id
            &&& call_ensures(supply, (&files@[name],), Ok(supplied.sources@[id]))
        } by {
        lemma_filed(ids, read, ids.len(), id);
        let i = choose|i: int|
            0 <= i < ids.len() && (#[trigger] ids[i])@ == id && filed(ids, read, ids.len())[id] == read[i];
        files.lemma_entry(i);
        let name = files.entries@[i].0@;
        assert(files@.dom().contains(name) && supplied.ids@[name]@ == id);
        assert(call_ensures(supply, (&files.entries@[i].1,), Ok(read[i])));
    }
}

/// Takes the named files as sources under new ids. `supply` reads one.
pub fn supply_sources<S: Fn(&String) -> Result<LocalSource, Error>>(files: &Table<String>, supply: &S) -> (result: Result<
    Supplied,
    Error,
>)
    requires
        files.wf(),
        forall|path: &String| call_requires(*supply, (path,)),
    ensures
        match result {
            Ok(supplied) => from_files(*files, *supply, supplied) && exists|ids: Seq<String>| #[trigger]
                supplied_under(*files, *supply, ids, supplied),
            Err(error) => exists|index: int| #[trigger] file_refused(files.entries@, *supply, index, error),
        },
{
    let mut drawn: Vec<String> = Vec::new();
    while drawn.len() < files.entries.len()
        invariant
            drawn@.len() <= files.entries@.len(),
            forall|i: int| 0 <= i < drawn@.len() ==> is_source_id((#[trigger] drawn@[i])@),
        decreases files.entries@.len() - drawn@.len(),
    {
        drawn.push(new_source_id());
    }
    match supply_under(files, &drawn, supply) {
        Ok(supplied) => {
            proof {
                lemma_from_files(*files, *supply, drawn@, supplied);
            }
            Ok(supplied)
        },
        Err(error) => Err(error),
    }
}

/// A line of a fixture, and what it is behind its line end, where that is a strict JSON
/// object.
pub struct FixtureLine {
    pub bytes: Vec<u8>,
    pub parsed: Option<Json>,
}

/// What was read of a fixture: its lines up to its end, or up to where reading failed.
pub struct Fixture {
    pub lines: Vec<FixtureLine>,
    pub fault: Option<Error>,
}

/// The validator accepts a value.
pub open spec fn accepts<V: Fn(&Json, &Json) -> Result<(), Vec<Finding>>>(conforms: V, schema: Json, value: Json) -> bool {
    exists|verdict: Result<(), Vec<Finding>>| #[trigger] call_ensures(conforms, (&schema, &value), verdict) && verdict is Ok
}

/// The line holds `item`, in which the ids of the supplied sources stand.
pub open spec fn line_holds<V: Fn(&Json, &Json) -> Result<(), Vec<Finding>>>(
    line: FixtureLine,
    schema: Json,
    supplied: Supplied,
    conforms: V,
    item: Json,
) -> bool {
    &&& line_contents(line.bytes@).len() <= MAX_FIXTURE_ITEM
    &&& line.parsed matches Some(value) && rewritten(schema@, value@, strings(supplied.ids)) == Ok::<
        JsonValue,
        SourceFault,
    >(item@)
    &&& accepts(conforms, schema, item)
    &&& sources_fault(schema@, item@, source_views(supplied.sources)) is None
}

/// Where a line stands, as the words for what is wrong with it begin.
pub open spec fn line_place(path: Seq<char>, position: nat) -> Seq<char> {
    path + ":"@ + decimal(position)
}

/// An item is refused: by the validator, or for the sources that it refers to.
pub open spec fn item_refused<V: Fn(&Json, &Json) -> Result<(), Vec<Finding>>>(
    schema: Json,
    supplied: Supplied,
    conforms: V,
    item: Json,
    error: Error,
) -> bool {
    exists|verdict: Result<(), Vec<Finding>>| #[trigger]
        call_ensures(conforms, (&schema, &item), verdict) && match verdict {
            Err(findings) => error == Error::Validation(findings),
            Ok(_) => sources_fault(schema@, item@, source_views(supplied.sources)) matches Some(fault) && is_invalid(
                error,
                fault.text_spec(),
            ),
        }
}

/// The line is refused with `error`.
pub open spec fn line_refused<V: Fn(&Json, &Json) -> Result<(), Vec<Finding>>>(
    line: FixtureLine,
    place: Seq<char>,
    schema: Json,
    supplied: Supplied,
    conforms: V,
    error: Error,
) -> bool {
    if line_contents(line.bytes@).len() > MAX_FIXTURE_ITEM {
        is_invalid(error, place + ": reader item exceeds 1 MiB"@)
    } else {
        match line.parsed {
            None => is_usage(error, place + ": expected a JSON object without duplicate keys"@),
            Some(value) => match rewritten(schema@, value@, strings(supplied.ids)) {
                Err(fault) => is_invalid(error, fault.text_spec()),
                Ok(expected) => exists|item: Json|
                    item@ == expected && #[trigger] item_refused(schema, supplied, conforms, item, error),
            },
        }
    }
}

/// The fixture holds `items`.
pub open spec fn fixture_holds<V: Fn(&Json, &Json) -> Result<(), Vec<Finding>>>(
    fixture: Fixture,
    schema: Json,
    supplied: Supplied,
    conforms: V,
    items: Seq<Json>,
) -> bool {
    &&& fixture.fault is None
    &&& items.len() == fixture.lines@.len()
    &&& forall|index: int|
        0 <= index < items.len() ==> line_holds(
            #[trigger] fixture.lines@[index],
            schema,
            supplied,
            conforms,
            items[index],
        )
}

/// The fixture is refused with `error` behind `items`: for the line that follows, or
/// behind its lines where reading failed.
pub open spec fn fixture_refused<V: Fn(&Json, &Json) -> Result<(), Vec<Finding>>>(
    fixture: Fixture,
    path: Seq<char>,
    schema: Json,
    supplied: Supplied,
    conforms: V,
    items: Seq<Json>,
    error: Error,
) -> bool {
    &&& items.len() <= fixture.lines@.len()
    &&& forall|index: int|
        0 <= index < items.len() ==> line_holds(
            #[trigger] fixture.lines@[index],
            schema,
            supplied,
            conforms,
            items[index],
        )
    &&& if items.len() < fixture.lines@.len() {
        line_refused(
            fixture.lines@[items.len() as int],
            line_place(path, items.len() + 1),
            schema,
            supplied,
            conforms,
            error,
        )
    } else {
        fixture.fault == Some(error)
    }
}

/// Reads the items of a fixture. `conforms` is the schema validator.
pub fn read_items<V: Fn(&Json, &Json) -> Result<(), Vec<Finding>>>(
    fixture: Fixture,
    path: &String,
    schema: &Json,
    supplied: &Supplied,
    conforms: &V,
) -> (result: Result<Vec<Json>, Error>)
    requires
        supplied.wf(),
        forall|schema: &Json, value: &Json| call_requires(*conforms, (schema, value)),
    ensures
        match result {
            Ok(items) => fixture_holds(fixture, *schema, *supplied, *conforms, items@),
            Err(error) => exists|items: Seq<Json>| #[trigger]
                fixture_refused(fixture, path@, *schema, *supplied, *conforms, items, error),
        },
{
    let ghost whole = fixture;
    let mut lines = fixture.lines;
    let mut items: Vec<Json> = Vec::new();
    let mut index: usize = 0;
    while index < lines.len()
        invariant
            index <= lines.len(),
            items@.len() == index,
            lines@.len() == whole.lines@.len(),
            fixture == whole,
            supplied.wf(),
            forall|schema: &Json, value: &Json| call_requires(*conforms, (schema, value)),
            forall|i: int| #![trigger whole.lines@[i]]
                index <= i < whole.lines@.len() ==> lines@[i] == whole.lines@[i],
            forall|i: int|
                0 <= i < index ==> line_holds(#[trigger] whole.lines@[i], *schema, *supplied, *conforms, items@[i]),
        decreases lines.len() - index,
    {
        let ghost line = whole.lines@[index as int];
        let ghost place = line_place(path@, index as nat + 1);
        assert(lines@[index as int] == line);
        let mut current = FixtureLine { bytes: Vec::new(), parsed: None };
        core::mem::swap(&mut lines[index], &mut current);
        let position: u64 = index as u64 + 1;
        match fixture_line(current.bytes.as_slice(), path.as_str(), position) {
            Ok(_) => {},
            Err(error) => {
                assert(line_refused(line, place, *schema, *supplied, *conforms, error));
                assert(fixture_refused(whole, path@, *schema, *supplied, *conforms, items@, error));
                return Err(error);
            },
        }
        let item = match fixture_item(schema, current.parsed, &supplied.ids, path.as_str(), position) {
            Ok(item) => item,
            Err(error) => {
                assert(line_refused(line, place, *schema, *supplied, *conforms, error));
                assert(fixture_refused(whole, path@, *schema, *supplied, *conforms, items@, error));
                return Err(error);
            },
        };
        let verdict = conforms(schema, &item);
        let ghost said = verdict;
        match accept_item(schema, &item, &supplied.sources, verdict) {
            Ok(_) => {},
            Err(error) => {
                proof {
                    assert(call_ensures(*conforms, (schema, &item), said));
                    assert(item_refused(*schema, *supplied, *conforms, item, error));
                    assert(line_refused(line, place, *schema, *supplied, *conforms, error));
                    assert(fixture_refused(whole, path@, *schema, *supplied, *conforms, items@, error));
                }
                return Err(error);
            },
        }
        proof {
            assert(call_ensures(*conforms, (schema, &item), said) && said is Ok);
            assert(accepts(*conforms, *schema, item));
            assert(line_holds(line, *schema, *supplied, *conforms, item));
        }
        items.push(item);
        index += 1;
    }
    match fixture.fault {
        Some(error) => {
            assert(fixture_refused(whole, path@, *schema, *supplied, *conforms, items@, error));
            Err(error)
        },
        None => Ok(items),
    }
}

/// The file of a resource holds `items`.
pub open spec fn resource_holds<R: Fn(&String) -> Fixture, V: Fn(&Json, &Json) -> Result<(), Vec<Finding>>>(
    file: (String, String),
    manifest: Manifest,
    read: R,
    supplied: Supplied,
    conforms: V,
    items: Seq<Json>,
) -> bool {
    exists|fixture: Fixture| #[trigger]
        call_ensures(read, (&file.1,), fixture) && fixture_holds(
            fixture,
            manifest.resources@[file.0@].schema,
            supplied,
            conforms,
            items,
        )
}

/// The file of a resource is refused with `error`.
pub open spec fn resource_refused<R: Fn(&String) -> Fixture, V: Fn(&Json, &Json) -> Result<(), Vec<Finding>>>(
    file: (String, String),
    manifest: Manifest,
    read: R,
    supplied: Supplied,
    conforms: V,
    error: Error,
) -> bool {
    exists|fixture: Fixture, items: Seq<Json>| #[trigger]
        call_ensures(read, (&file.1,), fixture) && #[trigger] fixture_refused(
            fixture,
            file.1@,
            manifest.resources@[file.0@].schema,
            supplied,
            conforms,
            items,
            error,
        )
}

/// The resource at `index` is one that the action reads, and its file holds some items.
pub open spec fn resource_reads<R: Fn(&String) -> Fixture, V: Fn(&Json, &Json) -> Result<(), Vec<Finding>>>(
    file: (String, String),
    manifest: Manifest,
    action: Action,
    read: R,
    supplied: Supplied,
    conforms: V,
) -> bool {
    action.permits(file.0@, Capability::Read) && exists|items: Seq<Json>| #[trigger]
        resource_holds(file, manifest, read, supplied, conforms, items)
}

/// The readers of an action have the items of their files, and none without a file.
pub open spec fn readers_hold<R: Fn(&String) -> Fixture, V: Fn(&Json, &Json) -> Result<(), Vec<Finding>>>(
    files: Table<String>,
    manifest: Manifest,
    action: Action,
    read: R,
    supplied: Supplied,
    conforms: V,
    readers: Table<Vec<Json>>,
) -> bool {
    &&& readers.wf()
    &&& forall|name: Seq<char>| #[trigger] readers@.dom().contains(name) <==> action.permits(name, Capability::Read)
    &&& forall|index: int|
        0 <= index < files.entries@.len() ==> action.permits((#[trigger] files.entries@[index]).0@, Capability::Read)
            && resource_holds(
            files.entries@[index],
            manifest,
            read,
            supplied,
            conforms,
            readers@[files.entries@[index].0@]@,
        )
    &&& forall|name: Seq<char>| #[trigger]
        readers@.dom().contains(name) && !files@.dom().contains(name) ==> readers@[name]@.len() == 0
}

/// The file at `index` is refused with `error`, and those before it are not.
pub open spec fn readers_refused<R: Fn(&String) -> Fixture, V: Fn(&Json, &Json) -> Result<(), Vec<Finding>>>(
    files: Seq<(String, String)>,
    manifest: Manifest,
    action: Action,
    read: R,
    supplied: Supplied,
    conforms: V,
    index: int,
    error: Error,
) -> bool {
    &&& 0 <= index < files.len()
    &&& forall|i: int|
        0 <= i < index ==> resource_reads(#[trigger] files[i], manifest, action, read, supplied, conforms)
    &&& if action.permits(files[index].0@, Capability::Read) {
        resource_refused(files[index], manifest, read, supplied, conforms, error)
    } else {
        is_invalid(error, files[index].0@ + " is not a reader declared by this action"@)
    }
}

/// Reads the items of the resources that an action reads. `read` reads a file, and
/// `conforms` is the schema validator.
pub fn read_resources<R: Fn(&String) -> Fixture, V: Fn(&Json, &Json) -> Result<(), Vec<Finding>>>(
    files: &Table<String>,
    manifest: &Manifest,
    action: &Action,
    read: &R,
    supplied: &Supplied,
    conforms: &V,
) -> (result: Result<Table<Vec<Json>>, Error>)
    requires
        files.wf(),
        supplied.wf(),
        manifest.wf(),
        manifest.declares(*action),
        forall|path: &String| call_requires(*read, (path,)),
        forall|schema: &Json, value: &Json| call_requires(*conforms, (schema, value)),
    ensures
        match result {
            Ok(readers) => readers_hold(*files, *manifest, *action, *read, *supplied, *conforms, readers),
            Err(error) => exists|index: int| #[trigger]
                readers_refused(
                    files.entries@,
                    *manifest,
                    *action,
                    *read,
                    *supplied,
                    *conforms,
                    index,
                    error,
                ),
        },
{
    let mut readers = reader_names(action);
    let mut index: usize = 0;
    while index < files.entries.len()
        invariant
            index <= files.entries.len(),
            files.wf(),
            supplied.wf(),
            manifest.wf(),
            manifest.declares(*action),
            readers.wf(),
            forall|path: &String| call_requires(*read, (path,)),
            forall|schema: &Json, value: &Json| call_requires(*conforms, (schema, value)),
            forall|name: Seq<char>| #[trigger]
                readers@.dom().contains(name) <==> action.permits(name, Capability::Read),
            forall|i: int|
                0 <= i < index ==> action.permits((#[trigger] files.entries@[i]).0@, Capability::Read)
                    && resource_holds(
                    files.entries@[i],
                    *manifest,
                    *read,
                    *supplied,
                    *conforms,
                    readers@[files.entries@[i].0@]@,
                ),
            forall|name: Seq<char>| #[trigger]
                readers@.dom().contains(name) && !files@.dom().contains(name) ==> readers@[name]@.len() == 0,
        decreases files.entries.len() - index,
    {
        let entry = &files.entries[index];
        proof {
            assert forall|i: int| 0 <= i < index implies resource_reads(
                #[trigger] files.entries@[i],
                *manifest,
                *action,
                *read,
                *supplied,
                *conforms,
            ) by {
                let items = readers@[files.entries@[i].0@]@;
                assert(resource_holds(files.entries@[i], *manifest, *read, *supplied, *conforms, items));
            }
        }
        match require_reader(&readers, entry.0.as_str()) {
            Ok(_) => {},
            Err(error) => {
                assert(readers_refused(
                    files.entries@,
                    *manifest,
                    *action,
                    *read,
                    *supplied,
                    *conforms,
                    index as int,
                    error,
                ));
                return Err(error);
            },
        }
        assert(action.resources@.dom().contains(entry.0@));
        let resource = manifest.resources.get(entry.0.as_str()).unwrap();
        let fixture = read(&entry.1);
        let ghost whole = fixture;
        assert(call_ensures(*read, (&entry.1,), whole));
        match read_items(fixture, &entry.1, &resource.schema, supplied, conforms) {
            Err(error) => {
                proof {
                    let items = choose|items: Seq<Json>| #[trigger]
                        fixture_refused(whole, entry.1@, resource.schema, *supplied, *conforms, items, error);
                    assert(call_ensures(*read, (&entry.1,), whole) && fixture_refused(
                        whole,
                        entry.1@,
                        manifest.resources@[entry.0@].schema,
                        *supplied,
                        *conforms,
                        items,
                        error,
                    ));
                    assert(resource_refused(*entry, *manifest, *read, *supplied, *conforms, error));
                    assert(readers_refused(
                        files.entries@,
                        *manifest,
                        *action,
                        *read,
                        *supplied,
                        *conforms,
                        index as int,
                        error,
                    ));
                }
                return Err(error);
            },
            Ok(items) => {
                let ghost before = readers@;
                proof {
                    assert(resource_holds(*entry, *manifest, *read, *supplied, *conforms, items@));
                    files.lemma_entry(index as int);
                }
                readers.insert(entry.0.clone(), items);
                proof {
                    assert forall|i: int| 0 <= i < index implies readers@[(#[trigger] files.entries@[i]).0@]
                        == before[files.entries@[i].0@] by {
                        assert(files.names()[i] == files.entries@[i].0@);
                        assert(files.names()[index as int] == entry.0@);
                        lemma_text_order(entry.0@, entry.0@);
                    }
                }
            },
        }
        index += 1;
    }
    Ok(readers)
}

/// The variable of a connection was found so.
pub open spec fn asked<T: Fn(&String) -> Variable>(variable: T, connection: Seq<char>, held: Variable) -> bool {
    exists|name: String| name@ == variable_of(connection) && #[trigger] call_ensures(variable, (&name,), held)
}

/// A variable that is absent, or holds a token that can be used.
pub open spec fn is_usable(held: Variable) -> bool {
    match held {
        Variable::Absent => true,
        Variable::NotUnicode => false,
        Variable::Present(value) => 0 < value@.len() && byte_count(value@) <= MAX_TOKEN_BYTES,
    }
}

/// The tokens of the first `end` connections by their names.
pub open spec fn token_map(connections: Seq<String>, held: Seq<Variable>, end: int) -> Map<Seq<char>, Seq<char>>
    decreases end,
{
    if end <= 0 {
        Map::empty()
    } else {
        let earlier = token_map(connections, held, end - 1);
        match held[end - 1] {
            Variable::Present(value) => earlier.insert(connections[end - 1]@, value@),
            _ => earlier,
        }
    }
}

/// The variables of the first connections were found so, and all but the last of them can
/// be used.
pub open spec fn tokens_asked<T: Fn(&String) -> Variable>(connections: Seq<String>, variable: T, held: Seq<Variable>) -> bool {
    &&& held.len() <= connections.len()
    &&& forall|index: int| 0 <= index < held.len() ==> asked(variable, connections[index]@, #[trigger] held[index])
    &&& forall|index: int| 0 <= index < held.len() - 1 ==> is_usable(#[trigger] held[index])
}

/// The tokens of a run are those that the variables hold.
pub open spec fn tokens_hold<T: Fn(&String) -> Variable>(
    connections: Seq<String>,
    variable: T,
    held: Seq<Variable>,
    tokens: Table<String>,
) -> bool {
    &&& tokens_asked(connections, variable, held)
    &&& held.len() == connections.len()
    &&& held.len() > 0 ==> is_usable(held.last())
    &&& tokens.wf()
    &&& strings(tokens) == token_map(connections, held, connections.len() as int)
}

/// The last variable that was asked for cannot be used.
pub open spec fn tokens_refused<T: Fn(&String) -> Variable>(
    connections: Seq<String>,
    variable: T,
    held: Seq<Variable>,
    error: Error,
) -> bool {
    &&& tokens_asked(connections, variable, held)
    &&& held.len() > 0
    &&& !is_usable(held.last())
    &&& {
        let name = variable_of(connections[held.len() - 1]@);
        if held.last() is NotUnicode {
            is_usage(error, name + " must be UTF-8"@)
        } else {
            is_invalid(error, name + " must contain between 1 and 16384 bytes"@)
        }
    }
}

/// Collects the tokens of the connections. `variable` looks one up.
pub fn collect_tokens<T: Fn(&String) -> Variable>(connections: &Vec<String>, variable: &T) -> (result: Result<
    Table<String>,
    Error,
>)
    requires
        forall|name: &String| call_requires(*variable, (name,)),
    ensures
        match result {
            Ok(tokens) => exists|held: Seq<Variable>| #[trigger] tokens_hold(connections@, *variable, held, tokens),
            Err(error) => exists|held: Seq<Variable>| #[trigger] tokens_refused(connections@, *variable, held, error),
        },
{
    let mut tokens: Table<String> = Table::new();
    let mut index: usize = 0;
    let ghost mut held: Seq<Variable> = Seq::empty();
    assert(strings(tokens) =~= Map::empty());
    while index < connections.len()
        invariant
            index <= connections.len(),
            forall|name: &String| call_requires(*variable, (name,)),
            held.len() == index,
            tokens_asked(connections@, *variable, held),
            index > 0 ==> is_usable(held.last()),
            tokens.wf(),
            strings(tokens) == token_map(connections@, held, index as int),
        decreases connections.len() - index,
    {
        let connection = &connections[index];
        let name = token_variable(connection.as_str());
        let found = variable(&name);
        let ghost before = held;
        proof {
            assert(call_ensures(*variable, (&name,), found));
            assert(asked(*variable, connection@, found));
            held = held.push(found);
            assert forall|i: int| 0 <= i < held.len() - 1 implies is_usable(#[trigger] held[i]) by {
                assert(held[i] == before[i]);
            }
            lemma_same_tokens(connections@, before, held, index as int);
        }
        match admit_token(name.as_str(), found) {
            Err(error) => {
                assert(tokens_refused(connections@, *variable, held, error));
                return Err(error);
            },
            Ok(Some(token)) => {
                let ghost earlier = tokens@;
                tokens.insert(connection.clone(), token);
                assert(strings(tokens) =~= token_map(connections@, held, index + 1));
            },
            Ok(None) => {},
        }
        index += 1;
    }
    let result: Result<Table<String>, Error> = Ok(tokens);
    assert(tokens_hold(connections@, *variable, held, result->Ok_0));
    result
}

proof fn lemma_same_tokens(connections: Seq<String>, held: Seq<Variable>, longer: Seq<Variable>, end: int)
    requires
        end <= held.len() <= longer.len(),
        forall|index: int| 0 <= index < held.len() ==> held[index] == longer[index],
    ensures
        token_map(connections, held, end) == token_map(connections, longer, end),
    decreases end,
{
    if end > 0 {
        lemma_same_tokens(connections, held, longer, end - 1);
    }
}

/// The object without members.
pub open spec fn no_members() -> JsonValue {
    JsonValue::Object(Seq::empty())
}

/// The parameters of a run are accepted, with the ids of the supplied sources in them.
pub open spec fn parameters_hold<V: Fn(&Json, &Json) -> Result<(), Vec<Finding>>>(
    action: Action,
    given: JsonValue,
    supplied: Supplied,
    conforms: V,
    parameters: Json,
) -> bool {
    &&& bound_parameters(schema_view(action.parameters), given, supplied.ids) == Ok::<JsonValue, BindFault>(parameters@)
    &&& byte_count(json_text(parameters@)) <= MAX_PARAMETERS
    &&& match action.parameters {
        None => parameters@ == no_members(),
        Some(schema) => accepts(conforms, schema, parameters) && sources_fault(
            schema@,
            parameters@,
            source_views(supplied.sources),
        ) is None,
    }
}

/// What a declared schema is.
pub open spec fn schema_view(schema: Option<Json>) -> Option<JsonValue> {
    match schema {
        Some(schema) => Some(schema@),
        None => None,
    }
}

/// The words for a value of more bytes than it may have.
pub open spec fn excess(name: Seq<char>, limit: nat) -> Seq<char> {
    name + " exceeds "@ + decimal(limit) + " bytes"@
}

/// The parameters of a run are refused with `error`.
pub open spec fn parameters_refused<V: Fn(&Json, &Json) -> Result<(), Vec<Finding>>>(
    action: Action,
    given: JsonValue,
    supplied: Supplied,
    conforms: V,
    error: Error,
) -> bool {
    match bound_parameters(schema_view(action.parameters), given, supplied.ids) {
        Err(BindFault::NotObject) => is_usage(error, "parameters must be an object"@),
        Err(BindFault::Source(fault)) => is_invalid(error, fault.text_spec()),
        Ok(bound) => if byte_count(json_text(bound)) > MAX_PARAMETERS {
            is_invalid(error, excess("parameters"@, MAX_PARAMETERS as nat))
        } else {
            match action.parameters {
                None => bound != no_members() && is_invalid(error, "parameters"@ + " is not declared"@),
                Some(schema) => exists|parameters: Json|
                    parameters@ == bound && #[trigger] item_refused(schema, supplied, conforms, parameters, error),
            }
        },
    }
}

/// Prepares the parameters of a run. `conforms` is the schema validator.
pub fn prepare_parameters<V: Fn(&Json, &Json) -> Result<(), Vec<Finding>>>(
    action: &Action,
    given: Json,
    supplied: &Supplied,
    conforms: &V,
) -> (result: Result<Json, Error>)
    requires
        supplied.wf(),
        forall|schema: &Json, value: &Json| call_requires(*conforms, (schema, value)),
    ensures
        match result {
            Ok(parameters) => parameters_hold(*action, given@, *supplied, *conforms, parameters),
            Err(error) => parameters_refused(*action, given@, *supplied, *conforms, error),
        },
{
    let schema = action.parameters.as_ref();
    let parameters = match bind_parameters(schema, given, &supplied.ids) {
        Ok(parameters) => parameters,
        Err(error) => return Err(error),
    };
    let mut verdict: Result<(), Vec<Finding>> = Ok(());
    if let Some(schema) = schema {
        if !serialized_exceeds(&parameters, MAX_PARAMETERS) {
            verdict = conforms(schema, &parameters);
            assert(call_ensures(*conforms, (schema, &parameters), verdict));
        }
    }
    let ghost said = verdict;
    match accept_parameters(schema, &parameters, verdict, &supplied.sources) {
        Ok(_) => {
            proof {
                if let Some(schema) = &action.parameters {
                    assert(call_ensures(*conforms, (schema, &parameters), said) && said is Ok);
                    assert(accepts(*conforms, *schema, parameters));
                }
            }
            Ok(parameters)
        },
        Err(error) => {
            proof {
                if byte_count(json_text(parameters@)) <= MAX_PARAMETERS {
                    if let Some(schema) = &action.parameters {
                        assert(call_ensures(*conforms, (schema, &parameters), said));
                        assert(item_refused(*schema, *supplied, *conforms, parameters, error));
                    }
                }
            }
            Err(error)
        },
    }
}

/// The configuration of an extension is accepted.
pub open spec fn configuration_holds<V: Fn(&Json, &Json) -> Result<(), Vec<Finding>>>(
    manifest: Manifest,
    conforms: V,
    configuration: Json,
) -> bool {
    &&& byte_count(json_text(configuration@)) <= MAX_CONFIGURATION
    &&& match manifest.configuration {
        None => configuration@ == no_members(),
        Some(schema) => accepts(conforms, schema, configuration),
    }
}

/// The configuration of an extension is refused with `error`.
pub open spec fn configuration_refused<V: Fn(&Json, &Json) -> Result<(), Vec<Finding>>>(
    manifest: Manifest,
    conforms: V,
    configuration: Json,
    error: Error,
) -> bool {
    if byte_count(json_text(configuration@)) > MAX_CONFIGURATION {
        is_invalid(error, excess("configuration"@, MAX_CONFIGURATION as nat))
    } else {
        match manifest.configuration {
            None => configuration@ != no_members() && is_invalid(error, "configuration"@ + " is not declared"@),
            Some(schema) => error matches Error::Validation(findings) && call_ensures(
                conforms,
                (&schema, &configuration),
                Err(findings),
            ),
        }
    }
}

/// Checks the configuration of an extension. `conforms` is the schema validator.
pub fn check_configuration<V: Fn(&Json, &Json) -> Result<(), Vec<Finding>>>(
    manifest: &Manifest,
    configuration: &Json,
    conforms: &V,
) -> (result: Result<(), Error>)
    requires
        forall|schema: &Json, value: &Json| call_requires(*conforms, (schema, value)),
    ensures
        match result {
            Ok(_) => configuration_holds(*manifest, *conforms, *configuration),
            Err(error) => configuration_refused(*manifest, *conforms, *configuration, error),
        },
{
    let mut verdict: Result<(), Vec<Finding>> = Ok(());
    if let Some(schema) = &manifest.configuration {
        if !serialized_exceeds(configuration, MAX_CONFIGURATION) {
            verdict = conforms(schema, configuration);
            assert(call_ensures(*conforms, (schema, configuration), verdict));
        }
    }
    let ghost said = verdict;
    let checked = validate_object(
        manifest.configuration.is_some(),
        configuration,
        MAX_CONFIGURATION,
        "configuration",
        verdict,
    );
    proof {
        if checked is Ok {
            if let Some(schema) = &manifest.configuration {
                assert(call_ensures(*conforms, (schema, configuration), said) && said is Ok);
                assert(accepts(*conforms, *schema, *configuration));
            }
        }
    }
    checked
}

/// The members of a run's arguments.
pub type Members = Seq<(Seq<char>, JsonValue)>;

/// The files that an argument names by name, or the words for what is wrong with it.
pub open spec fn listed_files(members: Members, name: Seq<char>) -> Result<Map<Seq<char>, Seq<char>>, Seq<char>> {
    match lookup(members, name) {
        None => Ok(Map::empty()),
        Some(JsonValue::Array(entries)) => file_entries(entries, Map::empty(), name),
        Some(_) => Err(name + " must be an array"@),
    }
}

/// The argument names these files.
pub open spec fn names_files(members: Members, name: Seq<char>, files: Table<String>) -> bool {
    files.wf() && listed_files(members, name) == Ok::<Map<Seq<char>, Seq<char>>, Seq<char>>(strings(files))
}

/// The object that an argument gives, without members where there is none.
pub open spec fn given_object(members: Members, name: Seq<char>) -> JsonValue {
    match lookup(members, name) {
        Some(value) => value,
        None => no_members(),
    }
}

/// The inputs of a run are what its arguments and the files and variables come to.
pub open spec fn inputs_hold<
    R: Fn(&String) -> Fixture,
    V: Fn(&Json, &Json) -> Result<(), Vec<Finding>>,
    T: Fn(&String) -> Variable,
>(
    members: Members,
    manifest: Manifest,
    supplied: Supplied,
    conforms: V,
    read: R,
    variable: T,
    inputs: Inputs,
) -> bool {
    let action = manifest.actions@[inputs.action@];
    &&& text_in(lookup(members, "action"@)) == Some(inputs.action@)
    &&& manifest.actions@.dom().contains(inputs.action@)
    &&& parameters_hold(action, given_object(members, "parameters"@), supplied, conforms, inputs.parameters)
    &&& inputs.configuration@ == given_object(members, "configuration"@)
    &&& configuration_holds(manifest, conforms, inputs.configuration)
    &&& exists|files: Table<String>|
        names_files(members, "resource"@, files) && #[trigger] readers_hold(
            files,
            manifest,
            action,
            read,
            supplied,
            conforms,
            inputs.readers,
        )
    &&& exists|held: Seq<Variable>| #[trigger] tokens_hold(action.connections@, variable, held, inputs.tokens)
}

/// Some parameters of a run are accepted.
pub open spec fn parameters_pass<V: Fn(&Json, &Json) -> Result<(), Vec<Finding>>>(
    action: Action,
    given: JsonValue,
    supplied: Supplied,
    conforms: V,
) -> bool {
    exists|parameters: Json| #[trigger] parameters_hold(action, given, supplied, conforms, parameters)
}

/// Some configuration of this value is accepted.
pub open spec fn configuration_passes<V: Fn(&Json, &Json) -> Result<(), Vec<Finding>>>(
    manifest: Manifest,
    given: JsonValue,
    conforms: V,
) -> bool {
    exists|configuration: Json|
        configuration@ == given && #[trigger] configuration_holds(manifest, conforms, configuration)
}

/// The inputs of a run are refused with `error` behind its supplied sources: for the
/// parameters, then for the configuration, then for the files of its resources, then for
/// a token.
pub open spec fn inputs_refused<
    R: Fn(&String) -> Fixture,
    V: Fn(&Json, &Json) -> Result<(), Vec<Finding>>,
    T: Fn(&String) -> Variable,
>(
    members: Members,
    manifest: Manifest,
    action: Action,
    supplied: Supplied,
    conforms: V,
    read: R,
    variable: T,
    error: Error,
) -> bool {
    let parameters = given_object(members, "parameters"@);
    let configuration = given_object(members, "configuration"@);
    ||| parameters_refused(action, parameters, supplied, conforms, error)
    ||| {
        &&& parameters_pass(action, parameters, supplied, conforms)
        &&& exists|held: Json|
            held@ == configuration && #[trigger] configuration_refused(manifest, conforms, held, error)
    }
    ||| {
        &&& parameters_pass(action, parameters, supplied, conforms)
        &&& configuration_passes(manifest, configuration, conforms)
        &&& match listed_files(members, "resource"@) {
            Err(words) => is_usage(error, words),
            Ok(_) => resources_refused(members, manifest, action, supplied, conforms, read, error) || (
            resources_pass(members, manifest, action, supplied, conforms, read) && exists|held: Seq<Variable>|
                #[trigger] tokens_refused(action.connections@, variable, held, error)),
        }
    }
}

/// A file of the resources is refused with `error`.
pub open spec fn resources_refused<R: Fn(&String) -> Fixture, V: Fn(&Json, &Json) -> Result<(), Vec<Finding>>>(
    members: Members,
    manifest: Manifest,
    action: Action,
    supplied: Supplied,
    conforms: V,
    read: R,
    error: Error,
) -> bool {
    exists|files: Table<String>, index: int|
        names_files(members, "resource"@, files) && #[trigger] readers_refused(
            files.entries@,
            manifest,
            action,
            read,
            supplied,
            conforms,
            index,
            error,
        )
}

/// The files of the resources hold items.
pub open spec fn resources_pass<R: Fn(&String) -> Fixture, V: Fn(&Json, &Json) -> Result<(), Vec<Finding>>>(
    members: Members,
    manifest: Manifest,
    action: Action,
    supplied: Supplied,
    conforms: V,
    read: R,
) -> bool {
    exists|files: Table<String>, readers: Table<Vec<Json>>|
        names_files(members, "resource"@, files) && #[trigger] readers_hold(
            files,
            manifest,
            action,
            read,
            supplied,
            conforms,
            readers,
        )
}

/// The sources that the arguments name were supplied.
pub open spec fn sources_hold<S: Fn(&String) -> Result<LocalSource, Error>>(
    members: Members,
    supply: S,
    supplied: Supplied,
) -> bool {
    exists|files: Table<String>|
        names_files(members, "source"@, files) && #[trigger] from_files(files, supply, supplied)
}

/// A run cannot be prepared from its arguments, for this error.
pub open spec fn run_refused<
    S: Fn(&String) -> Result<LocalSource, Error>,
    R: Fn(&String) -> Fixture,
    V: Fn(&Json, &Json) -> Result<(), Vec<Finding>>,
    T: Fn(&String) -> Variable,
>(
    members: Members,
    manifest: Manifest,
    supply: S,
    conforms: V,
    read: R,
    variable: T,
    error: Error,
) -> bool {
    match text_in(lookup(members, "action"@)) {
        None => is_usage(error, "action"@ + " is required"@),
        Some(name) => if !manifest.actions@.dom().contains(name) {
            is_invalid(error, "unknown extension action"@)
        } else {
            match listed_files(members, "source"@) {
                Err(words) => is_usage(error, words),
                Ok(_) => {
                    ||| exists|files: Table<String>, index: int|
                        names_files(members, "source"@, files) && #[trigger] file_refused(
                            files.entries@,
                            supply,
                            index,
                            error,
                        )
                    ||| exists|supplied: Supplied| #[trigger]
                        sources_hold(members, supply, supplied) && inputs_refused(
                            members,
                            manifest,
                            manifest.actions@[name],
                            supplied,
                            conforms,
                            read,
                            variable,
                            error,
                        )
                },
            }
        },
    }
}

impl Inputs {
    /// Prepares a run from its arguments. `supply` takes a file as a source, `read` reads
    /// a fixture, `variable` looks up a variable of the environment, and `conforms` is
    /// the schema validator. The parameters and the configuration are taken out of the
    /// arguments.
    pub fn parse<
        S: Fn(&String) -> Result<LocalSource, Error>,
        R: Fn(&String) -> Fixture,
        V: Fn(&Json, &Json) -> Result<(), Vec<Finding>>,
        T: Fn(&String) -> Variable,
    >(
        arguments: &mut Arguments,
        manifest: &Manifest,
        supply: &S,
        conforms: &V,
        read: &R,
        variable: &T,
    ) -> (result: Result<(Inputs, Supplied), Error>)
        requires
            manifest.wf(),
            forall|path: &String| call_requires(*supply, (path,)),
            forall|schema: &Json, value: &Json| call_requires(*conforms, (schema, value)),
            forall|path: &String| call_requires(*read, (path,)),
            forall|name: &String| call_requires(*variable, (name,)),
        ensures
            match result {
                Ok((inputs, supplied)) => {
                    &&& sources_hold(members_of(old(arguments)@), *supply, supplied)
                    &&& inputs_hold(
                        members_of(old(arguments)@),
                        *manifest,
                        supplied,
                        *conforms,
                        *read,
                        *variable,
                        inputs,
                    )
                    &&& members_of(final(arguments)@) == without_member(
                        without_member(members_of(old(arguments)@), "parameters"@),
                        "configuration"@,
                    )
                },
                Err(error) => run_refused(
                    members_of(old(arguments)@),
                    *manifest,
                    *supply,
                    *conforms,
                    *read,
                    *variable,
                    error,
                ),
            },
    {
        let ghost members = members_of(arguments@);
        let action = match select_action(arguments, manifest) {
            Ok(action) => action,
            Err(error) => return Err(error),
        };
        let name = match text(arguments, "action") {
            Ok(name) => name.to_owned(),
            Err(error) => return Err(error),
        };
        assert(manifest.declares(*action));
        let files = match file_map(arguments, "source") {
            Ok(files) => files,
            Err(error) => return Err(error),
        };
        assert(names_files(members, "source"@, files));
        let supplied = match supply_sources(&files, supply) {
            Ok(supplied) => supplied,
            Err(error) => {
                proof {
                    let index = choose|index: int| #[trigger] file_refused(files.entries@, *supply, index, error);
                    assert(names_files(members, "source"@, files) && file_refused(
                        files.entries@,
                        *supply,
                        index,
                        error,
                    ));
                }
                return Err(error);
            },
        };
        assert(sources_hold(members, *supply, supplied));
        let given = take_object(arguments, "parameters");
        let ghost parameters_given = given@;
        let parameters = match prepare_parameters(action, given, &supplied, conforms) {
            Ok(parameters) => parameters,
            Err(error) => {
                assert(inputs_refused(members, *manifest, *action, supplied, *conforms, *read, *variable, error));
                return Err(error);
            },
        };
        assert(parameters_pass(*action, parameters_given, supplied, *conforms));
        proof {
            reveal_strlit("parameters");
            reveal_strlit("configuration");
            reveal_strlit("resource");
            assert("parameters"@.len() == 10 && "configuration"@.len() == 13 && "resource"@.len() == 8);
            lemma_take_others(members, "parameters"@, "configuration"@);
            lemma_take_others(members, "parameters"@, "resource"@);
            lemma_take_others(without_member(members, "parameters"@), "configuration"@, "resource"@);
        }
        let configuration = take_object(arguments, "configuration");
        assert(configuration@ == given_object(members, "configuration"@));
        match check_configuration(manifest, &configuration, conforms) {
            Ok(_) => {},
            Err(error) => {
                assert(configuration_refused(*manifest, *conforms, configuration, error));
                assert(inputs_refused(members, *manifest, *action, supplied, *conforms, *read, *variable, error));
                return Err(error);
            },
        }
        assert(configuration_passes(*manifest, configuration@, *conforms));
        let fixtures = match file_map(arguments, "resource") {
            Ok(fixtures) => fixtures,
            Err(error) => {
                assert(inputs_refused(members, *manifest, *action, supplied, *conforms, *read, *variable, error));
                return Err(error);
            },
        };
        assert(names_files(members, "resource"@, fixtures));
        let readers = match read_resources(&fixtures, manifest, action, read, &supplied, conforms) {
            Ok(readers) => readers,
            Err(error) => {
                proof {
                    let index = choose|index: int| #[trigger]
                        readers_refused(
                            fixtures.entries@,
                            *manifest,
                            *action,
                            *read,
                            supplied,
                            *conforms,
                            index,
                            error,
                        );
                    assert(names_files(members, "resource"@, fixtures) && readers_refused(
                        fixtures.entries@,
                        *manifest,
                        *action,
                        *read,
                        supplied,
                        *conforms,
                        index,
                        error,
                    ));
                    assert(resources_refused(members, *manifest, *action, supplied, *conforms, *read, error));
                    assert(inputs_refused(members, *manifest, *action, supplied, *conforms, *read, *variable, error));
                }
                return Err(error);
            },
        };
        assert(resources_pass(members, *manifest, *action, supplied, *conforms, *read));
        let tokens = match collect_tokens(&action.connections, variable) {
            Ok(tokens) => tokens,
            Err(error) => {
                assert(inputs_refused(members, *manifest, *action, supplied, *conforms, *read, *variable, error));
                return Err(error);
            },
        };
        let inputs = Inputs { action: name, parameters, configuration, readers, tokens };
        proof {
            assert(manifest.actions@[inputs.action@] == *action);
            assert(names_files(members, "resource"@, fixtures) && readers_hold(
                fixtures,
                *manifest,
                *action,
                *read,
                supplied,
                *conforms,
                inputs.readers,
            ));
            let held = choose|held: Seq<Variable>| #[trigger]
                tokens_hold(action.connections@, *variable, held, inputs.tokens);
            assert(tokens_hold(action.connections@, *variable, held, inputs.tokens));
            assert(inputs_hold(members, *manifest, supplied, *conforms, *read, *variable, inputs));
        }
        Ok((inputs, supplied))
    }
}

proof fn lemma_tokens_are_usable(connections: Seq<String>, held: Seq<Variable>, end: int)
    requires
        end <= held.len(),
        forall|index: int| 0 <= index < held.len() ==> is_usable(#[trigger] held[index]),
    ensures
        forall|name: Seq<char>| #[trigger]
            token_map(connections, held, end).dom().contains(name) ==> token_map(connections, held, end)[name].len() > 0,
    decreases end,
{
    if end > 0 {
        lemma_tokens_are_usable(connections, held, end - 1);
        assert(is_usable(held[end - 1]));
        let earlier = token_map(connections, held, end - 1);
        let tokens = token_map(connections, held, end);
        assert forall|name: Seq<char>| #[trigger] tokens.dom().contains(name) implies tokens[name].len() > 0 by {
            if !(held[end - 1] is Present && name == connections[end - 1]@) {
                assert(earlier.dom().contains(name));
            }
        }
    }
}

/// Inputs that were prepared from arguments are inputs that a run can start from.
pub proof fn law_prepared_inputs_start_a_run<
    R: Fn(&String) -> Fixture,
    V: Fn(&Json, &Json) -> Result<(), Vec<Finding>>,
    T: Fn(&String) -> Variable,
>(members: Members, supplied: Supplied, conforms: V, read: R, variable: T, setup: Setup)
    requires
        setup.manifest.wf(),
        inputs_hold(members, setup.manifest, supplied, conforms, read, variable, setup.inputs),
    ensures
        setup.wf(),
{
    let action = setup.action();
    let tokens = setup.inputs.tokens;
    let held = choose|held: Seq<Variable>| #[trigger] tokens_hold(action.connections@, variable, held, tokens);
    assert forall|index: int| 0 <= index < held.len() implies is_usable(#[trigger] held[index]) by {
        if index == held.len() - 1 {
            assert(held[index] == held.last());
        }
    }
    lemma_tokens_are_usable(action.connections@, held, action.connections@.len() as int);
    assert forall|index: int| 0 <= index < tokens.entries@.len() implies (#[trigger] tokens.entries@[index]).1@.len()
        > 0 by {
        tokens.lemma_entry(index);
        assert(strings(tokens).dom().contains(tokens.entries@[index].0@));
    }
}

/// Every token that the environment holds is found under its connection, and no other is.
pub proof fn law_held_tokens_are_collected(connections: Seq<String>, held: Seq<Variable>, end: int)
    requires
        0 <= end <= connections.len(),
        connections.len() == held.len(),
        forall|i: int, j: int| 0 <= i < j < connections.len() ==> (#[trigger] connections[i])@ != (#[trigger] connections[j])@,
    ensures
        forall|i: int|
            0 <= i < end ==> match #[trigger] held[i] {
                Variable::Present(value) => token_map(connections, held, end).dom().contains(connections[i]@)
                    && token_map(connections, held, end)[connections[i]@] == value@,
                _ => !token_map(connections, held, end).dom().contains(connections[i]@),
            },
        forall|name: Seq<char>| #[trigger]
            token_map(connections, held, end).dom().contains(name) ==> exists|i: int|
                0 <= i < end && (#[trigger] connections[i])@ == name,
    decreases end,
{
    if end > 0 {
        law_held_tokens_are_collected(connections, held, end - 1);
        let before = token_map(connections, held, end - 1);
        let after = token_map(connections, held, end);
        let last = connections[end - 1]@;
        assert(!before.dom().contains(last)) by {
            if before.dom().contains(last) {
                let i = choose|i: int| 0 <= i < end - 1 && (#[trigger] connections[i])@ == last;
                assert(connections[i]@ != connections[end - 1]@);
            }
        }
        assert forall|i: int| 0 <= i < end implies match #[trigger] held[i] {
            Variable::Present(value) => after.dom().contains(connections[i]@) && after[connections[i]@] == value@,
            _ => !after.dom().contains(connections[i]@),
        } by {
            if i < end - 1 {
                assert(connections[i]@ != connections[end - 1]@);
            }
        }
        assert forall|name: Seq<char>| #[trigger] after.dom().contains(name) implies exists|i: int|
            0 <= i < end && (#[trigger] connections[i])@ == name by {
            if before.dom().contains(name) {
                let i = choose|i: int| 0 <= i < end - 1 && (#[trigger] connections[i])@ == name;
                assert(connections[i]@ == name);
            } else {
                assert(connections[end - 1]@ == name);
            }
        }
    }
}

/// A token that is held is used where it is one through 16384 bytes; none need be held.
pub proof fn law_usable_tokens(held: Variable)
    ensures
        is_usable(held) <==> held is Absent || (held is Present && held->Present_0@.len() > 0 && byte_count(
            held->Present_0@,
        ) <= 16_384),
{
}

/// Every source that is read is found under its id.
pub proof fn law_read_sources_are_filed(ids: Seq<String>, read: Seq<LocalSource>, end: nat)
    requires
        end <= ids.len(),
        ids.len() == read.len(),
        forall|i: int, j: int| 0 <= i < j < ids.len() ==> (#[trigger] ids[i])@ != (#[trigger] ids[j])@,
    ensures
        forall|i: int|
            0 <= i < end ==> filed(ids, read, end).dom().contains((#[trigger] ids[i])@) && filed(ids, read, end)[ids[i]@]
                == read[i],
        forall|id: Seq<char>| #[trigger]
            filed(ids, read, end).dom().contains(id) ==> exists|i: int| 0 <= i < end && (#[trigger] ids[i])@ == id,
    decreases end,
{
    if end > 0 {
        law_read_sources_are_filed(ids, read, (end - 1) as nat);
        let before = filed(ids, read, (end - 1) as nat);
        let after = filed(ids, read, end);
        assert forall|i: int| 0 <= i < end implies after.dom().contains((#[trigger] ids[i])@) && after[ids[i]@] == read[i] by {
            if i < end - 1 {
                assert(ids[i]@ != ids[end - 1]@);
            }
        }
        assert forall|id: Seq<char>| #[trigger] after.dom().contains(id) implies exists|i: int|
            0 <= i < end && (#[trigger] ids[i])@ == id by {
            if before.dom().contains(id) {
                let i = choose|i: int| 0 <= i < end - 1 && (#[trigger] ids[i])@ == id;
                assert(ids[i]@ == id);
            } else {
                assert(ids[end - 1]@ == id);
            }
        }
    }
}

/// Files are listed in an array, or not at all, and what is given for an object is taken as
/// it is, or is the empty object.
pub proof fn law_given_values(members: Members, name: Seq<char>)
    ensures
        lookup(members, name) is None ==> listed_files(members, name) == Ok::<Map<Seq<char>, Seq<char>>, Seq<char>>(
            Map::empty(),
        ) && given_object(members, name) == JsonValue::Object(Seq::empty()),
        lookup(members, name) matches Some(value) ==> given_object(members, name) == value,
        lookup(members, name) matches Some(JsonValue::Array(entries)) ==> listed_files(members, name) == file_entries(
            entries,
            Map::empty(),
            name,
        ),
        lookup(members, name) is Some && !(lookup(members, name)->0 is Array) ==> listed_files(members, name) is Err,
{
}

/// The parameters of a run are those that were given with the ids of the supplied sources,
/// within eight mebibytes; they conform to what is declared, and are empty where nothing is.
pub proof fn law_parameters_of_a_run<V: Fn(&Json, &Json) -> Result<(), Vec<Finding>>>(
    action: Action,
    given: JsonValue,
    supplied: Supplied,
    conforms: V,
    parameters: Json,
)
    requires
        parameters_hold(action, given, supplied, conforms, parameters),
    ensures
        byte_count(json_text(parameters@)) <= 8_388_608,
        action.parameters is None ==> parameters@ == JsonValue::Object(Seq::empty()) && bound_parameters(
            None,
            given,
            supplied.ids,
        ) == Ok::<JsonValue, BindFault>(parameters@),
        action.parameters matches Some(schema) ==> {
            &&& bound_parameters(Some(schema@), given, supplied.ids) == Ok::<JsonValue, BindFault>(parameters@)
            &&& accepts(conforms, schema, parameters)
            &&& sources_fault(schema@, parameters@, source_views(supplied.sources)) is None
        },
{
}

/// The configuration of a run is within 256 kibibytes, conforms to what is declared, and is
/// empty where nothing is.
pub proof fn law_configuration_of_a_run<V: Fn(&Json, &Json) -> Result<(), Vec<Finding>>>(
    manifest: Manifest,
    conforms: V,
    configuration: Json,
)
    requires
        configuration_holds(manifest, conforms, configuration),
    ensures
        byte_count(json_text(configuration@)) <= 262_144,
        manifest.configuration is None ==> configuration@ == JsonValue::Object(Seq::empty()),
        manifest.configuration matches Some(schema) ==> accepts(conforms, schema, configuration),
{
}

/// A fixture is read line by line: every line is one item, of at most one mebibyte, with the
/// ids of the supplied sources, that conforms to the schema.
pub proof fn law_fixtures_are_read_line_by_line<V: Fn(&Json, &Json) -> Result<(), Vec<Finding>>>(
    fixture: Fixture,
    schema: Json,
    supplied: Supplied,
    conforms: V,
    items: Seq<Json>,
    index: int,
)
    requires
        fixture_holds(fixture, schema, supplied, conforms, items),
        0 <= index < fixture.lines@.len(),
    ensures
        items.len() == fixture.lines@.len(),
        line_contents(fixture.lines@[index].bytes@).len() <= 1_048_576,
        fixture.lines@[index].parsed is Some,
        rewritten(schema@, fixture.lines@[index].parsed->0@, strings(supplied.ids)) == Ok::<JsonValue, SourceFault>(
            items[index]@,
        ),
        accepts(conforms, schema, items[index]),
        sources_fault(schema@, items[index]@, source_views(supplied.sources)) is None,
{
    assert(line_holds(fixture.lines@[index], schema, supplied, conforms, items[index]));
}

/// Every file that was named is read, and found under the id that stands for its name; no
/// other name has an id.
pub proof fn law_sources_come_from_their_files<S: Fn(&String) -> Result<LocalSource, Error>>(
    files: Table<String>,
    supply: S,
    ids: Seq<String>,
    supplied: Supplied,
    index: int,
)
    requires
        files.wf(),
        supplied_under(files, supply, ids, supplied),
        forall|i: int, j: int| 0 <= i < j < ids.len() ==> (#[trigger] ids[i])@ != (#[trigger] ids[j])@,
        0 <= index < files.entries@.len(),
    ensures
        supplied.ids@.dom() == files@.dom(),
        ids.len() == files.entries@.len(),
        supplied.ids@[files.entries@[index].0@]@ == ids[index]@,
        supplied.sources@.dom().contains(ids[index]@),
        call_ensures(supply, (&files.entries@[index].1,), Ok(supplied.sources@[ids[index]@])),
{
    let read = choose|read: Seq<LocalSource>|
        {
            &&& #[trigger] sources_read(files.entries@, supply, read)
            &&& read.len() == ids.len()
            &&& supplied.sources@ == filed(ids, read, ids.len())
        };
    law_read_sources_are_filed(ids, read, ids.len());
    assert(call_ensures(supply, (&files.entries@[index].1,), Ok(read[index])));
}

/// An action is handed a reader for each resource that it may read, and for no other: the
/// items of the fixture that was named for it, and none where none was named.
pub proof fn law_readers_come_from_their_fixtures<
    R: Fn(&String) -> Fixture,
    V: Fn(&Json, &Json) -> Result<(), Vec<Finding>>,
>(
    files: Table<String>,
    manifest: Manifest,
    action: Action,
    read: R,
    supplied: Supplied,
    conforms: V,
    readers: Table<Vec<Json>>,
    index: int,
    name: Seq<char>,
)
    requires
        readers_hold(files, manifest, action, read, supplied, conforms, readers),
    ensures
        readers@.dom().contains(name) <==> action.permits(name, Capability::Read),
        readers@.dom().contains(name) && !files@.dom().contains(name) ==> readers@[name]@.len() == 0,
        0 <= index < files.entries@.len() ==> {
            let (resource, path) = files.entries@[index];
            &&& action.permits(resource@, Capability::Read)
            &&& exists|fixture: Fixture| #[trigger]
                call_ensures(read, (&path,), fixture) && fixture_holds(
                    fixture,
                    manifest.resources@[resource@].schema,
                    supplied,
                    conforms,
                    readers@[resource@]@,
                )
        },
{
    if 0 <= index < files.entries@.len() {
        assert(action.permits(files.entries@[index].0@, Capability::Read));
        assert(resource_holds(
            files.entries@[index],
            manifest,
            read,
            supplied,
            conforms,
            readers@[files.entries@[index].0@]@,
        ));
    }
}

/// A run is handed the tokens that the environment holds for its connections, each asked for
/// by the name of its connection, and no others.
pub proof fn law_tokens_come_from_the_environment<T: Fn(&String) -> Variable>(
    connections: Seq<String>,
    variable: T,
    held: Seq<Variable>,
    tokens: Table<String>,
    index: int,
)
    requires
        tokens_hold(connections, variable, held, tokens),
        forall|i: int, j: int| 0 <= i < j < connections.len() ==> (#[trigger] connections[i])@ != (#[trigger] connections[j])@,
        0 <= index < connections.len(),
    ensures
        asked(variable, connections[index]@, held[index]),
        held[index] matches Variable::Present(value) ==> strings(tokens).dom().contains(connections[index]@) && strings(
            tokens,
        )[connections[index]@] == value@,
        !(held[index] is Present) ==> !strings(tokens).dom().contains(connections[index]@),
{
    law_held_tokens_are_collected(connections, held, connections.len() as int);
    assert(tokens_asked(connections, variable, held));
    let value = held[index];
}

/// A run is prepared as its arguments say: the action that they name, the configuration as it
/// is given, and parameters, readers and tokens that hold.
pub proof fn law_runs_are_prepared_as_asked<
    R: Fn(&String) -> Fixture,
    V: Fn(&Json, &Json) -> Result<(), Vec<Finding>>,
    T: Fn(&String) -> Variable,
>(members: Members, manifest: Manifest, supplied: Supplied, conforms: V, read: R, variable: T, inputs: Inputs)
    requires
        inputs_hold(members, manifest, supplied, conforms, read, variable, inputs),
    ensures
        lookup(members, "action"@) == Some(JsonValue::Text(inputs.action@)),
        manifest.actions@.dom().contains(inputs.action@),
        inputs.configuration@ == given_object(members, "configuration"@),
        configuration_holds(manifest, conforms, inputs.configuration),
        parameters_hold(
            manifest.actions@[inputs.action@],
            given_object(members, "parameters"@),
            supplied,
            conforms,
            inputs.parameters,
        ),
        exists|files: Table<String>|
            names_files(members, "resource"@, files) && #[trigger] readers_hold(
                files,
                manifest,
                manifest.actions@[inputs.action@],
                read,
                supplied,
                conforms,
                inputs.readers,
            ),
        exists|held: Seq<Variable>| #[trigger]
            tokens_hold(manifest.actions@[inputs.action@].connections@, variable, held, inputs.tokens),
{
}

} // verus!
