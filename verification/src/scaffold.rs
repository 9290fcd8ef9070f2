//! The project that a new extension starts from.

use vstd::prelude::*;
use vstd::string::*;

use crate::identity::{extension_name, is_extension_name};
use crate::text::{chars_of, digit, is_digit, push_text, replace_text, replaced};
use crate::tool::Error;

verus! {

/// What a command shows of a new project.
#[derive(Debug)]
pub struct ScaffoldResult {
    /// The name of the extension.
    pub extension_id: String,
    /// The directory of the project.
    pub directory: String,
}

/// A hexadecimal digit of either case.
pub open spec fn hexadecimal(character: char) -> bool {
    digit(character) || 'a' <= character <= 'f' || 'A' <= character <= 'F'
}

/// A full Git commit: forty hexadecimal digits.
pub open spec fn is_commit(text: Seq<char>) -> bool {
    text.len() == 40 && forall|index: int| 0 <= index < text.len() ==> hexadecimal(#[trigger] text[index])
}

/// Whether `text` is a full Git commit.
pub fn full_commit(text: &str) -> (valid: bool)
    ensures
        valid == is_commit(text@),
{
    let characters = chars_of(text);
    if characters.len() != 40 {
        return false;
    }
    let mut index: usize = 0;
    while index < characters.len()
        invariant
            index <= characters.len(),
            characters@ == text@,
            forall|i: int| 0 <= i < index ==> hexadecimal(#[trigger] text@[i]),
        decreases characters.len() - index,
    {
        let character = characters[index];
        if !(is_digit(character) || ('a' <= character && character <= 'f') || ('A' <= character && character <= 'F')) {
            assert(!hexadecimal(text@[index as int]));
            return false;
        }
        index += 1;
    }
    true
}

/// Checks the name of a new extension and the commit that it is pinned to.
pub fn validate_identity(name: &str, revision: &str) -> (valid: Result<(), Error>)
    ensures
        if !is_commit(revision@) {
            valid matches Err(Error::Usage(message)) && message@
                == "SDK revision must be a full 40-character Git commit"@
        } else if !is_extension_name(name@) {
            valid matches Err(Error::Invalid(message)) && message@
                == "extension name must be a dotted lowercase publisher-qualified name"@
        } else {
            valid == Ok::<(), Error>(())
        },
{
    if !full_commit(revision) {
        return Err(Error::Usage("SDK revision must be a full 40-character Git commit".to_owned()));
    }
    if !extension_name(name) {
        return Err(Error::Invalid("extension name must be a dotted lowercase publisher-qualified name".to_owned()));
    }
    Ok(())
}

/// What `.cargo/config.toml` holds.
pub const CARGO_CONFIG: &'static str = "[target.wasm32-wasip2]\nrustflags = [\"--cfg\", \"tokio_unstable\"]\n";

/// What `rust-toolchain.toml` holds.
pub const TOOLCHAIN: &'static str =
    "[toolchain]\nchannel = \"nightly-2026-08-15\"\ntargets = [\"wasm32-wasip2\"]\nprofile = \"minimal\"\n";

/// What `.gitignore` holds.
pub const IGNORED: &'static str = "/target\n/dist\n/run\n";

/// What `records.jsonl` holds.
pub const RECORDS: &'static str = "{\"id\":\"record-1\",\"label\":\"  Example record  \"}\n";

/// What `Cargo.toml` holds.
pub open spec fn cargo_manifest(name: Seq<char>, revision: Seq<char>) -> Seq<char> {
    "[package]\nname = \""@ + replaced(name, "."@, "-"@)
        + "\"\nversion = \"0.0.1\"\ndescription = \"Normalize record labels without changing their identity.\"\nedition = \"2024\"\n\n[lib]\ncrate-type = [\"cdylib\"]\n\n[dependencies]\nsloper-extension = { git = \"https://github.com/sloper-ai/extension-sdk\", rev = \""@
        + revision
        + "\" }\nserde = { version = \"1\", features = [\"derive\"] }\nfutures = { version = \"0.3.34\", default-features = false, features = [\"std\", \"async-await\"] }\n"@
}

fn write_cargo_manifest(name: &str, revision: &str) -> (text: String)
    ensures
        text@ == cargo_manifest(name@, revision@),
{
    let mut text = "[package]\nname = \"".to_owned();
    push_text(&mut text, replace_text(name, ".", "-").as_str());
    push_text(
        &mut text,
        "\"\nversion = \"0.0.1\"\ndescription = \"Normalize record labels without changing their identity.\"\nedition = \"2024\"\n\n[lib]\ncrate-type = [\"cdylib\"]\n\n[dependencies]\nsloper-extension = { git = \"https://github.com/sloper-ai/extension-sdk\", rev = \"",
    );
    push_text(&mut text, revision);
    push_text(
        &mut text,
        "\" }\nserde = { version = \"1\", features = [\"derive\"] }\nfutures = { version = \"0.3.34\", default-features = false, features = [\"std\", \"async-await\"] }\n",
    );
    text
}

/// What `src/lib.rs` holds.
pub open spec fn library_source(name: Seq<char>) -> Seq<char> {
    "use futures::{SinkExt, TryStreamExt};\nuse serde::{Deserialize, Serialize};\nuse sloper_extension::{action, extension, Reader, Resource, Result, Writer};\n\nextension! { name: \""@
        + name
        + "\", actions: [normalize] }\n\n#[derive(Deserialize, Serialize, Resource)]\n#[resource(name = \"records\", key = id)]\nstruct Record {\n    #[schema(max_length = 512)]\n    id: String,\n    label: String,\n}\n\n/// Trim whitespace from record labels.\n#[action]\nasync fn normalize(mut input: Reader<Record>, mut output: Writer<Record>) -> Result<()> {\n    while let Some(record) = input.try_next().await? {\n        output.send(vec![Record { id: record.id.clone(), label: record.label.trim().to_owned() }].into()).await?;\n    }\n    Ok(())\n}\n"@
}

fn write_library_source(name: &str) -> (text: String)
    ensures
        text@ == library_source(name@),
{
    let mut text =
        "use futures::{SinkExt, TryStreamExt};\nuse serde::{Deserialize, Serialize};\nuse sloper_extension::{action, extension, Reader, Resource, Result, Writer};\n\nextension! { name: \"".to_owned();
    push_text(&mut text, name);
    push_text(
        &mut text,
        "\", actions: [normalize] }\n\n#[derive(Deserialize, Serialize, Resource)]\n#[resource(name = \"records\", key = id)]\nstruct Record {\n    #[schema(max_length = 512)]\n    id: String,\n    label: String,\n}\n\n/// Trim whitespace from record labels.\n#[action]\nasync fn normalize(mut input: Reader<Record>, mut output: Writer<Record>) -> Result<()> {\n    while let Some(record) = input.try_next().await? {\n        output.send(vec![Record { id: record.id.clone(), label: record.label.trim().to_owned() }].into()).await?;\n    }\n    Ok(())\n}\n",
    );
    text
}

/// What `README.md` holds.
pub open spec fn readme(name: Seq<char>) -> Seq<char> {
    "# "@ + name
        + "\n\nTrim record labels while preserving each record's key.\n\n## Build and run\n\n```sh\nsloper-extension build .\nsloper-extension check .\nsloper-extension run normalize --directory . --resource records=records.jsonl --out run\n```\n\nRead the results in `run/records.jsonl`. Each line in `records.jsonl` supplies one input record. Use a new output directory for each run.\n\nSee [LICENSE](LICENSE) for the terms covering the Sloper template and SDK. Independently authored code remains yours.\n"@
}

fn write_readme(name: &str) -> (text: String)
    ensures
        text@ == readme(name@),
{
    let mut text = "# ".to_owned();
    push_text(&mut text, name);
    push_text(
        &mut text,
        "\n\nTrim record labels while preserving each record's key.\n\n## Build and run\n\n```sh\nsloper-extension build .\nsloper-extension check .\nsloper-extension run normalize --directory . --resource records=records.jsonl --out run\n```\n\nRead the results in `run/records.jsonl`. Each line in `records.jsonl` supplies one input record. Use a new output directory for each run.\n\nSee [LICENSE](LICENSE) for the terms covering the Sloper template and SDK. Independently authored code remains yours.\n",
    );
    text
}

/// A file of a new project: its path below the project's directory, and its text.
pub struct ProjectFile {
    pub path: &'static str,
    pub text: String,
}

/// What a file of a project is.
pub ghost struct ProjectFileView {
    pub path: Seq<char>,
    pub text: Seq<char>,
}

impl View for ProjectFile {
    type V = ProjectFileView;

    open spec fn view(&self) -> ProjectFileView {
        ProjectFileView { path: self.path@, text: self.text@ }
    }
}

/// The files of a new project, in the order in which they are written.
pub open spec fn project_files(name: Seq<char>, revision: Seq<char>, license: Seq<char>) -> Seq<ProjectFileView> {
    seq![
        ProjectFileView { path: ".cargo/config.toml"@, text: CARGO_CONFIG@ },
        ProjectFileView { path: "Cargo.toml"@, text: cargo_manifest(name, revision) },
        ProjectFileView { path: "rust-toolchain.toml"@, text: TOOLCHAIN@ },
        ProjectFileView { path: "src/lib.rs"@, text: library_source(name) },
        ProjectFileView { path: ".gitignore"@, text: IGNORED@ },
        ProjectFileView { path: "LICENSE"@, text: license },
        ProjectFileView { path: "records.jsonl"@, text: RECORDS@ },
        ProjectFileView { path: "README.md"@, text: readme(name) },
    ]
}

/// Plans a new project pinned to a commit, under the terms of `license`. `occupied` says
/// whether something stands where the project would go.
pub fn scaffold(name: &str, revision: &str, license: &str, occupied: bool) -> (files: Result<Vec<ProjectFile>, Error>)
    ensures
        if !is_commit(revision@) {
            files matches Err(Error::Usage(message)) && message@
                == "SDK revision must be a full 40-character Git commit"@
        } else if !is_extension_name(name@) {
            files matches Err(Error::Invalid(message)) && message@
                == "extension name must be a dotted lowercase publisher-qualified name"@
        } else if occupied {
            files matches Err(Error::Usage(message)) && message@ == "extension directory already exists"@
        } else {
            files matches Ok(files) && files@.map_values(|file: ProjectFile| file@) == project_files(
                name@,
                revision@,
                license@,
            )
        },
{
    match validate_identity(name, revision) {
        Ok(_) => {},
        Err(error) => return Err(error),
    }
    if occupied {
        return Err(Error::Usage("extension directory already exists".to_owned()));
    }
    let mut files: Vec<ProjectFile> = Vec::new();
    files.push(ProjectFile { path: ".cargo/config.toml", text: CARGO_CONFIG.to_owned() });
    files.push(ProjectFile { path: "Cargo.toml", text: write_cargo_manifest(name, revision) });
    files.push(ProjectFile { path: "rust-toolchain.toml", text: TOOLCHAIN.to_owned() });
    files.push(ProjectFile { path: "src/lib.rs", text: write_library_source(name) });
    files.push(ProjectFile { path: ".gitignore", text: IGNORED.to_owned() });
    files.push(ProjectFile { path: "LICENSE", text: license.to_owned() });
    files.push(ProjectFile { path: "records.jsonl", text: RECORDS.to_owned() });
    files.push(ProjectFile { path: "README.md", text: write_readme(name) });
    assert(files@.map_values(|file: ProjectFile| file@) =~= project_files(name@, revision@, license@));
    Ok(files)
}

/// A commit is forty characters, each a digit or a letter from `a` to `f` in either case.
pub proof fn law_commits(text: Seq<char>)
    ensures
        is_commit(text) <==> text.len() == 40 && forall|i: int|
            0 <= i < text.len() ==> '0' <= #[trigger] text[i] <= '9' || 'a' <= text[i] <= 'f' || 'A' <= text[i] <= 'F',
{
    assert forall|i: int| 0 <= i < text.len() implies hexadecimal(#[trigger] text[i]) == ('0' <= text[i] <= '9' || 'a'
        <= text[i] <= 'f' || 'A' <= text[i] <= 'F') by {}
}

/// A project is pinned to its commit: the manifests of two projects of one name are the same
/// only where both are pinned to one commit.
pub proof fn law_manifests_pin_the_commit(name: Seq<char>, left: Seq<char>, right: Seq<char>)
    requires
        cargo_manifest(name, left) == cargo_manifest(name, right),
    ensures
        left == right,
{
    let head = "[package]\nname = \""@ + replaced(name, "."@, "-"@)
        + "\"\nversion = \"0.0.1\"\ndescription = \"Normalize record labels without changing their identity.\"\nedition = \"2024\"\n\n[lib]\ncrate-type = [\"cdylib\"]\n\n[dependencies]\nsloper-extension = { git = \"https://github.com/sloper-ai/extension-sdk\", rev = \""@;
    let tail = "\" }\nserde = { version = \"1\", features = [\"derive\"] }\nfutures = { version = \"0.3.34\", default-features = false, features = [\"std\", \"async-await\"] }\n"@;
    lemma_between(head, tail, left, right);
}

/// Two texts that are the same around a place hold the same there.
proof fn lemma_between(head: Seq<char>, tail: Seq<char>, left: Seq<char>, right: Seq<char>)
    requires
        head + left + tail == head + right + tail,
    ensures
        left == right,
{
    let text = head + left + tail;
    let other = head + right + tail;
    assert(text.len() == other.len());
    assert(left =~= text.subrange(head.len() as int, (head.len() + left.len()) as int));
    assert(right =~= other.subrange(head.len() as int, (head.len() + right.len()) as int));
}

/// The source and the guide of a project say the name of its extension: they are the same
/// for two extensions only where both have one name.
pub proof fn law_projects_say_their_name(left: Seq<char>, right: Seq<char>)
    ensures
        library_source(left) == library_source(right) ==> left == right,
        readme(left) == readme(right) ==> left == right,
{
    if library_source(left) == library_source(right) {
        let head = "use futures::{SinkExt, TryStreamExt};\nuse serde::{Deserialize, Serialize};\nuse sloper_extension::{action, extension, Reader, Resource, Result, Writer};\n\nextension! { name: \""@;
        let tail = "\", actions: [normalize] }\n\n#[derive(Deserialize, Serialize, Resource)]\n#[resource(name = \"records\", key = id)]\nstruct Record {\n    #[schema(max_length = 512)]\n    id: String,\n    label: String,\n}\n\n/// Trim whitespace from record labels.\n#[action]\nasync fn normalize(mut input: Reader<Record>, mut output: Writer<Record>) -> Result<()> {\n    while let Some(record) = input.try_next().await? {\n        output.send(vec![Record { id: record.id.clone(), label: record.label.trim().to_owned() }].into()).await?;\n    }\n    Ok(())\n}\n"@;
        lemma_between(head, tail, left, right);
    }
    if readme(left) == readme(right) {
        let tail = "\n\nTrim record labels while preserving each record's key.\n\n## Build and run\n\n```sh\nsloper-extension build .\nsloper-extension check .\nsloper-extension run normalize --directory . --resource records=records.jsonl --out run\n```\n\nRead the results in `run/records.jsonl`. Each line in `records.jsonl` supplies one input record. Use a new output directory for each run.\n\nSee [LICENSE](LICENSE) for the terms covering the Sloper template and SDK. Independently authored code remains yours.\n"@;
        lemma_between("# "@, tail, left, right);
    }
}

/// The file at a path is in a project.
pub open spec fn holds_file(files: Seq<ProjectFileView>, path: Seq<char>, text: Seq<char>) -> bool {
    files.contains(ProjectFileView { path, text })
}

/// A project holds its manifest, its source, its guide, its terms as they were given, an
/// example record, and what its tools need.
pub proof fn law_projects_are_complete(name: Seq<char>, revision: Seq<char>, license: Seq<char>)
    ensures
        ({
            let files = project_files(name, revision, license);
            &&& files.len() == 8
            &&& holds_file(files, "Cargo.toml"@, cargo_manifest(name, revision))
            &&& holds_file(files, "src/lib.rs"@, library_source(name))
            &&& holds_file(files, "README.md"@, readme(name))
            &&& holds_file(files, "LICENSE"@, license)
            &&& holds_file(files, "records.jsonl"@, RECORDS@)
            &&& holds_file(files, "rust-toolchain.toml"@, TOOLCHAIN@)
            &&& holds_file(files, ".cargo/config.toml"@, CARGO_CONFIG@)
            &&& holds_file(files, ".gitignore"@, IGNORED@)
        }),
{
    let files = project_files(name, revision, license);
    assert(files[0].path == ".cargo/config.toml"@);
    assert(files.contains(files[0]));
    assert(files.contains(files[1]));
    assert(files.contains(files[2]));
    assert(files.contains(files[3]));
    assert(files.contains(files[4]));
    assert(files.contains(files[5]));
    assert(files.contains(files[6]));
    assert(files.contains(files[7]));
}

} // verus!
