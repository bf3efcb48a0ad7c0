//! The local layer: what a publish stores and where, and what a download finds there.

use crate::endpoints;
use crate::outside;
use crate::registry::index;
use crate::registry::proxy;
use crate::registry::publish;
use crate::registry::RegistryError;
use crate::response;
use crate::response::{Header, InternalResponse, OutboundRequest};
use crate::text;
use crate::types;
use crate::types::{IndexEntry, PublishMetadata};
use vstd::prelude::*;
use vstd::string::*;
use vstd::utf8::*;

verus! {

broadcast use vstd::string::group_string_axioms;

// ---------------------------------------------------------------------------
// Checksums
// ---------------------------------------------------------------------------

/// The checksum of a crate file as the index has it: its SHA-256 digest in hexadecimal.
pub open spec fn checksum_text(data: Seq<u8>) -> Seq<char> {
    text::hex(outside::sha256(data))
}

/// The checksum of a crate file as the index has it.
pub fn checksum(data: &[u8]) -> (r: String)
    ensures
        r@ == checksum_text(data@),
        r@.len() == 64,
{
    let digest = outside::sha256_digest(data);
    text::to_hex(digest.as_slice())
}

// ---------------------------------------------------------------------------
// Where crate files stand
// ---------------------------------------------------------------------------

/// The directory of a crate's files below the registry's directory.
pub open spec fn crate_dir(name: Seq<char>) -> Seq<Seq<char>> {
    seq!["crates"@, name]
}

/// The crate file of a version below the registry's directory.
pub open spec fn crate_file(name: Seq<char>, version: Seq<char>) -> Seq<Seq<char>> {
    seq!["crates"@, name, version + ".crate"@]
}

/// The components of the path to a crate's files, below the registry's directory.
pub fn local_crate_dir(name: &str) -> (r: Vec<String>)
    ensures
        text::texts(r@) == crate_dir(name@),
{
    let mut out: Vec<String> = Vec::new();
    out.push(String::from_str("crates"));
    out.push(String::from_str(name));
    assert(text::texts(out@) =~= crate_dir(name@));
    out
}

/// The components of the path to a crate file, below the registry's directory.
pub fn local_crate_file(name: &str, version: &str) -> (r: Vec<String>)
    ensures
        text::texts(r@) == crate_file(name@, version@),
{
    let mut out = local_crate_dir(name);
    let ghost before = text::texts(out@);
    out.push(text::concat(version, ".crate"));
    assert(text::texts(out@) =~= before.push(version@ + ".crate"@));
    assert(text::texts(out@) =~= crate_file(name@, version@));
    out
}

// ---------------------------------------------------------------------------
// Publishing
// ---------------------------------------------------------------------------

/// Whether a crate with this metadata is turned away: it does not pass validation, and publishing
/// is not permissive.
pub open spec fn is_turned_away(metadata: PublishMetadata, permissive: bool) -> bool {
    !permissive && types::validation_errors(metadata).len() > 0
}

/// Turns a crate away that does not pass validation, unless publishing is permissive.
pub fn check_metadata(metadata: &PublishMetadata, permissive: bool) -> (r: Result<
    (),
    RegistryError,
>)
    ensures
        r is Err <==> is_turned_away(*metadata, permissive),
        r is Ok <==> permissive || {
            &&& metadata.description is Some && metadata.description->0@.len() > 0
            &&& (metadata.license is Some && metadata.license->0@.len() > 0) || (
            metadata.license_file is Some && metadata.license_file->0@.len() > 0)
            &&& metadata.keywords@.len() <= 5
        },
        r matches Err(e) ==> e is ValidationFailed && text::texts(e->ValidationFailed_0@)
            == types::validation_errors(*metadata),
{
    proof {
        types::law_valid_metadata_says_enough(*metadata);
    }
    if permissive {
        return Ok(());
    }
    let errors = metadata.validate();
    assert(errors@.len() == text::texts(errors@).len());
    if errors.len() == 0 {
        Ok(())
    } else {
        Err(RegistryError::ValidationFailed(errors))
    }
}

/// What a publish is to store.
#[derive(Debug)]
pub struct PublishPlan {
    /// Directory of the crate's files
    pub crate_dir: Vec<String>,
    /// The crate file
    pub crate_file: Vec<String>,
    /// What the crate file holds
    pub crate_data: Vec<u8>,
    /// The crate's index file
    pub index_file: Vec<String>,
    /// The version that is published
    pub vers: String,
    /// What the index is to say of it
    pub entry: IndexEntry,
}

/// Whether `plan` is what publishing `data` with this metadata is to store.
pub open spec fn is_plan_of(plan: PublishPlan, metadata: PublishMetadata, data: Seq<u8>) -> bool {
    &&& text::texts(plan.crate_dir@) == crate_dir(metadata.name@)
    &&& text::texts(plan.crate_file@) == crate_file(metadata.name@, metadata.vers@)
    &&& plan.crate_data@ == data
    &&& text::texts(plan.index_file@) == publish::index_file(text::lowercase(metadata.name@))
    &&& plan.vers@ == metadata.vers@
    &&& types::is_entry_of(plan.entry, metadata, checksum_text(data))
}

/// What publishing `data` with this metadata is to store.
pub fn plan_publish(metadata: PublishMetadata, data: &[u8]) -> (r: PublishPlan)
    requires
        publish::has_index_path(text::lowercase(metadata.name@)),
    ensures
        is_plan_of(r, metadata, data@),
{
    let name_lower = text::to_lowercase(metadata.name.as_str());
    let index_file = publish::index_components(name_lower.as_str());
    let crate_dir = local_crate_dir(metadata.name.as_str());
    let crate_file = local_crate_file(metadata.name.as_str(), metadata.vers.as_str());
    let vers = metadata.vers.clone();
    let entry = metadata.into_entry(checksum(data));
    PublishPlan {
        crate_dir,
        crate_file,
        crate_data: vstd::slice::slice_to_vec(data),
        index_file,
        vers,
        entry,
    }
}

/// What publishing `data` with this metadata is to store; nothing where an index has no place for
/// the crate's name.
pub fn checked_plan_publish(metadata: PublishMetadata, data: &[u8]) -> (r: Option<PublishPlan>)
    ensures
        r is Some <==> publish::has_index_path(text::lowercase(metadata.name@)),
        r matches Some(plan) ==> is_plan_of(plan, metadata, data@),
{
    let name_lower = text::to_lowercase(metadata.name.as_str());
    if publish::check_index_name(name_lower.as_str()) {
        Some(plan_publish(metadata, data))
    } else {
        None
    }
}

/// Whether `result` is what a publish request holds, or the answer to one that is refused, where
/// `decoded` is what the metadata in `body` decodes to. The metadata is validated before the
/// crate file is looked at.
pub open spec fn is_accepted(
    result: Result<(PublishMetadata, &[u8]), InternalResponse>,
    body: Seq<u8>,
    permissive: bool,
    decoded: Result<PublishMetadata, serde_json::Error>,
) -> bool {
    match decoded {
        Err(e) => exists|detail: Seq<char>| #[trigger]
            outside::json_error_says(e, detail) && endpoints::is_refused(
                result,
                "Invalid metadata: "@ + detail,
            ),
        Ok(metadata) => if is_turned_away(metadata, permissive) {
            endpoints::is_refused(
                result,
                "Validation failed: "@ + text::joined(types::validation_errors(metadata), "; "@),
            )
        } else {
            match endpoints::crate_bytes(body) {
                None => endpoints::is_refused(result, "Request body too short"@),
                Some(data) => result is Ok && result->Ok_0.0 == metadata && result->Ok_0.1@ == data,
            }
        },
    }
}

/// The answer to a publish request whose metadata does not decode, where `detail` is what is wrong
/// with it.
pub fn invalid_metadata_reply(detail: &str) -> (r: InternalResponse)
    ensures
        r@ == response::text_reply(response::BAD_REQUEST, "Invalid metadata: "@ + detail@),
{
    InternalResponse::text(
        response::BAD_REQUEST,
        text::concat("Invalid metadata: ", detail).as_str(),
    )
}

/// What a publish request holds, its metadata as `decode` makes it of its bytes; or the answer to
/// a request that is malformed or does not pass validation.
pub fn handle_api_publish<'a, F>(body: &'a [u8], permissive: bool, decode: F) -> (r: Result<
    (PublishMetadata, &'a [u8]),
    InternalResponse,
>) where F: FnOnce(&[u8]) -> Result<PublishMetadata, serde_json::Error>
    requires
        forall|json: &[u8]| #[trigger] call_requires(decode, (json,)),
    ensures
        endpoints::metadata_bytes(body@) is None ==> endpoints::is_refused(r, "Request body too short"@),
        endpoints::metadata_bytes(body@) matches Some(bytes) ==> exists|
            json: &[u8],
            decoded: Result<PublishMetadata, serde_json::Error>,
        |
            json@ == bytes && #[trigger] call_ensures(decode, (json,), decoded) && is_accepted(
                r,
                body@,
                permissive,
                decoded,
            ),
{
    let json = match endpoints::metadata_part(body) {
        None => return Err(
            InternalResponse::text(response::BAD_REQUEST, "Request body too short"),
        ),
        Some(json) => json,
    };
    let metadata = match decode(json) {
        Err(e) => {
            let detail = outside::say_json_error(&e);
            return Err(invalid_metadata_reply(detail.as_str()));
        },
        Ok(metadata) => metadata,
    };
    match check_metadata(&metadata, permissive) {
        Err(RegistryError::ValidationFailed(errors)) => {
            let msg = text::join(errors.as_slice(), "; ");
            return Err(
                InternalResponse::text(
                    response::BAD_REQUEST,
                    text::concat("Validation failed: ", msg.as_str()).as_str(),
                ),
            );
        },
        _ => {},
    }
    match endpoints::crate_part(body) {
        None => Err(InternalResponse::text(response::BAD_REQUEST, "Request body too short")),
        Some(data) => Ok((metadata, data)),
    }
}

// ---------------------------------------------------------------------------
// Storing, one step after the other
// ---------------------------------------------------------------------------

/// What is to be done next to store a published crate.
#[derive(Debug, Clone, Copy, PartialEq, Eq, Structural)]
pub enum PublishStep {
    /// Create the directory of the crate's files
    CreateCrateDir,
    /// Create the crate file
    CreateCrateFile,
    /// Write the crate file
    WriteCrate,
    /// Create the directory of the index file
    CreateIndexDir,
    /// Write the index entry as a line of JSON
    EncodeEntry,
    /// Write the index file with the line in it
    WriteIndex,
    /// Nothing: the crate is stored
    Done,
}

/// The step after one that went well.
pub open spec fn next_step(step: PublishStep) -> PublishStep {
    match step {
        PublishStep::CreateCrateDir => PublishStep::CreateCrateFile,
        PublishStep::CreateCrateFile => PublishStep::WriteCrate,
        PublishStep::WriteCrate => PublishStep::CreateIndexDir,
        PublishStep::CreateIndexDir => PublishStep::EncodeEntry,
        PublishStep::EncodeEntry => PublishStep::WriteIndex,
        PublishStep::WriteIndex => PublishStep::Done,
        PublishStep::Done => PublishStep::Done,
    }
}

/// What is said of a step that failed, before the error's own text.
pub open spec fn failure_text(step: PublishStep) -> Seq<char> {
    match step {
        PublishStep::CreateCrateDir => "Failed to create directory: "@,
        PublishStep::CreateCrateFile => "Failed to create crate file: "@,
        PublishStep::WriteCrate => "Failed to write crate: "@,
        PublishStep::CreateIndexDir => "Failed to create index dir: "@,
        PublishStep::EncodeEntry => "Failed to serialize: "@,
        PublishStep::WriteIndex => "Failed to write index: "@,
        PublishStep::Done => ""@,
    }
}

/// What is to be done after `step`; or, where it failed with the text `failure`, the answer to the
/// publish request. Storing ends at the first step that fails.
pub fn advance_publish(step: PublishStep, failure: Option<&str>) -> (r: Result<
    PublishStep,
    InternalResponse,
>)
    requires
        step != PublishStep::Done,
    ensures
        failure is None ==> r == Ok::<PublishStep, InternalResponse>(next_step(step)),
        failure matches Some(said) ==> r is Err && r->Err_0@ == response::text_reply(
            response::INTERNAL_SERVER_ERROR,
            failure_text(step) + said@,
        ),
{
    match failure {
        None => Ok(
            match step {
                PublishStep::CreateCrateDir => PublishStep::CreateCrateFile,
                PublishStep::CreateCrateFile => PublishStep::WriteCrate,
                PublishStep::WriteCrate => PublishStep::CreateIndexDir,
                PublishStep::CreateIndexDir => PublishStep::EncodeEntry,
                PublishStep::EncodeEntry => PublishStep::WriteIndex,
                PublishStep::WriteIndex => PublishStep::Done,
                PublishStep::Done => PublishStep::Done,
            },
        ),
        Some(said) => {
            let prefix = match step {
                PublishStep::CreateCrateDir => "Failed to create directory: ",
                PublishStep::CreateCrateFile => "Failed to create crate file: ",
                PublishStep::WriteCrate => "Failed to write crate: ",
                PublishStep::CreateIndexDir => "Failed to create index dir: ",
                PublishStep::EncodeEntry => "Failed to serialize: ",
                PublishStep::WriteIndex => "Failed to write index: ",
                PublishStep::Done => "",
            };
            Err(
                InternalResponse::text(
                    response::INTERNAL_SERVER_ERROR,
                    text::concat(prefix, said).as_str(),
                ),
            )
        },
    }
}

/// The step after `n` steps from the first that went well.
pub open spec fn step_after(n: nat) -> PublishStep
    decreases n,
{
    if n == 0 {
        PublishStep::CreateCrateDir
    } else {
        next_step(step_after((n - 1) as nat))
    }
}

/// Storing a crate takes six steps. The index file is written last: the index never speaks of a
/// crate whose file was not written before.
pub proof fn law_index_is_written_last(n: nat)
    ensures
        step_after(n) == PublishStep::WriteCrate <==> n == 2,
        step_after(n) == PublishStep::WriteIndex <==> n == 5,
        step_after(n) == PublishStep::Done <==> n >= 6,
    decreases n,
{
    reveal_with_fuel(step_after, 7);
    if n > 6 {
        law_index_is_written_last((n - 1) as nat);
    }
}

/// The files of the local layer, by their paths below the registry's directory.
pub type Files = Map<Seq<char>, Seq<u8>>;

/// The path that components make.
pub open spec fn path_of(components: Seq<Seq<char>>) -> Seq<char> {
    text::joined(components, "/"@)
}

/// Whether a text names one file or directory below another: it has no slash, and is none of the
/// names that stand for a directory itself or the one above it.
pub open spec fn is_file_name(s: Seq<char>) -> bool {
    &&& s.len() > 0
    &&& !s.contains('/')
    &&& s != "."@
    &&& s != ".."@
}

/// The files after a crate was stored, where `index_text` is the new text of its index file.
pub open spec fn after_publish(files: Files, plan: PublishPlan, index_text: Seq<char>) -> Files {
    files.insert(path_of(text::texts(plan.crate_file@)), plan.crate_data@).insert(
        path_of(text::texts(plan.index_file@)),
        encode_utf8(index_text),
    )
}

/// Whether two states of the files have the same at a path.
pub open spec fn same_at(a: Files, b: Files, path: Seq<char>) -> bool {
    &&& a.dom().contains(path) == b.dom().contains(path)
    &&& a.dom().contains(path) ==> a[path] == b[path]
}

/// A text without a slash before the first slash, and what stands behind it, are fixed by the
/// whole.
proof fn lemma_split_at_slash(a: Seq<char>, b: Seq<char>, c: Seq<char>, d: Seq<char>)
    requires
        !a.contains('/'),
        !c.contains('/'),
        a + "/"@ + b == c + "/"@ + d,
    ensures
        a == c,
        b == d,
{
    reveal_strlit("/");
    let all = a + "/"@ + b;
    let same = c + "/"@ + d;
    if a.len() < c.len() {
        assert(same[a.len() as int] == c[a.len() as int]);
        assert(all[a.len() as int] == '/');
        assert(c.contains(c[a.len() as int]));
    } else if c.len() < a.len() {
        assert(all[c.len() as int] == a[c.len() as int]);
        assert(same[c.len() as int] == '/');
        assert(a.contains(a[c.len() as int]));
    }
    assert(a =~= all.take(a.len() as int));
    assert(c =~= same.take(c.len() as int));
    assert(b =~= all.skip(a.len() as int + 1));
    assert(d =~= same.skip(c.len() as int + 1));
}

/// A text without a slash behind the last slash is fixed by the whole.
proof fn lemma_behind_last_slash(a: Seq<char>, b: Seq<char>, c: Seq<char>, d: Seq<char>)
    requires
        !b.contains('/'),
        !d.contains('/'),
        a + "/"@ + b == c + "/"@ + d,
    ensures
        b == d,
{
    reveal_strlit("/");
    let all = a + "/"@ + b;
    let same = c + "/"@ + d;
    let n = all.len() as int;
    if b.len() < d.len() {
        let i = n - b.len() - 1;
        assert(all[i] == '/');
        assert(same[i] == d[i - c.len() - 1]);
        assert(d.contains(d[i - c.len() - 1]));
    } else if d.len() < b.len() {
        let i = n - d.len() - 1;
        assert(same[i] == '/');
        assert(all[i] == b[i - a.len() - 1]);
        assert(b.contains(b[i - a.len() - 1]));
    }
    assert(b =~= all.skip(n - b.len()));
    assert(d =~= same.skip(n - d.len()));
}

/// The path of a crate file.
proof fn lemma_crate_path(name: Seq<char>, version: Seq<char>)
    ensures
        path_of(crate_file(name, version)) == "crates"@ + "/"@ + (name + "/"@ + (version
            + ".crate"@)),
{
    let parts = crate_file(name, version);
    reveal_with_fuel(text::joined, 4);
    assert(parts.drop_first() =~= seq![name, version + ".crate"@]);
    assert(parts.drop_first().drop_first() =~= seq![version + ".crate"@]);
    assert(path_of(parts) =~= "crates"@ + "/"@ + (name + "/"@ + (version + ".crate"@)));
}

/// The path of an index file: it begins with the directory of the index, and ends with the name.
proof fn lemma_index_path(name: Seq<char>) -> (dir: Seq<char>)
    ensures
        path_of(publish::index_file(name)) == dir + "/"@ + name,
        "index"@.is_prefix_of(dir),
{
    let parts = publish::index_file(name);
    let path = path_of(parts);
    reveal_with_fuel(text::joined, 5);
    if parts.len() == 3 {
        let dir = "index"@ + "/"@ + parts[1];
        assert(parts.drop_first() =~= seq![parts[1], name]);
        assert(parts.drop_first().drop_first() =~= seq![name]);
        assert(path =~= dir + "/"@ + name);
        assert("index"@ =~= dir.subrange(0, "index"@.len() as int));
        dir
    } else {
        let dir = "index"@ + "/"@ + parts[1] + "/"@ + parts[2];
        assert(parts.drop_first() =~= seq![parts[1], parts[2], name]);
        assert(parts.drop_first().drop_first() =~= seq![parts[2], name]);
        assert(parts.drop_first().drop_first().drop_first() =~= seq![name]);
        assert(path =~= dir + "/"@ + name);
        assert("index"@ =~= dir.subrange(0, "index"@.len() as int));
        dir
    }
}

/// No crate file is an index file.
proof fn lemma_paths_are_apart(name: Seq<char>, version: Seq<char>, listed: Seq<char>)
    ensures
        path_of(crate_file(name, version)) != path_of(publish::index_file(listed)),
{
    lemma_crate_path(name, version);
    let dir = lemma_index_path(listed);
    reveal_strlit("crates");
    reveal_strlit("index");
    assert(dir[0] == "index"@[0]);
    assert(path_of(crate_file(name, version))[0] == 'c');
    assert(path_of(publish::index_file(listed))[0] == 'i');
}

/// What was published is what a download finds: the crate file of the version is there with the
/// published data, and the crate file of every other version and crate is as it was before.
pub proof fn law_download_finds_what_was_published(
    files: Files,
    plan: PublishPlan,
    metadata: PublishMetadata,
    data: Seq<u8>,
    index_text: Seq<char>,
    name: Seq<char>,
    version: Seq<char>,
)
    requires
        is_plan_of(plan, metadata, data),
        is_file_name(metadata.name@),
        is_file_name(name),
        !metadata.vers@.contains('/'),
        !version.contains('/'),
    ensures
        ({
            let after = after_publish(files, plan, index_text);
            let path = path_of(crate_file(name, version));
            if name == metadata.name@ && version == metadata.vers@ {
                after.dom().contains(path) && after[path] == data
            } else {
                same_at(after, files, path)
            }
        }),
{
    let path = path_of(crate_file(name, version));
    let written = path_of(text::texts(plan.crate_file@));
    lemma_paths_are_apart(name, version, text::lowercase(metadata.name@));
    if path == written {
        let rest = name + "/"@ + (version + ".crate"@);
        let own_rest = metadata.name@ + "/"@ + (metadata.vers@ + ".crate"@);
        lemma_crate_path(name, version);
        lemma_crate_path(metadata.name@, metadata.vers@);
        assert(!"crates"@.contains('/')) by {
            reveal_strlit("crates");
        }
        lemma_split_at_slash("crates"@, rest, "crates"@, own_rest);
        lemma_split_at_slash(
            name,
            version + ".crate"@,
            metadata.name@,
            metadata.vers@ + ".crate"@,
        );
        let file = version + ".crate"@;
        let own = metadata.vers@ + ".crate"@;
        assert(version =~= file.take(file.len() - ".crate"@.len()));
        assert(metadata.vers@ =~= own.take(own.len() - ".crate"@.len()));
    }
}

/// What was published is what an index lookup finds: the index file of the crate has the new text,
/// and the index file of every other crate is as it was before.
pub proof fn law_lookup_finds_what_was_published(
    files: Files,
    plan: PublishPlan,
    metadata: PublishMetadata,
    data: Seq<u8>,
    index_text: Seq<char>,
    name: Seq<char>,
)
    requires
        is_plan_of(plan, metadata, data),
        is_file_name(metadata.name@),
        is_file_name(text::lowercase(metadata.name@)),
        !metadata.vers@.contains('/'),
        is_file_name(name),
    ensures
        ({
            let after = after_publish(files, plan, index_text);
            let path = path_of(publish::index_file(name));
            if name == text::lowercase(metadata.name@) {
                after.dom().contains(path) && after[path] == encode_utf8(index_text)
            } else {
                same_at(after, files, path)
            }
        }),
{
    let own = text::lowercase(metadata.name@);
    let path = path_of(publish::index_file(name));
    lemma_paths_are_apart(metadata.name@, metadata.vers@, name);
    if path == path_of(text::texts(plan.index_file@)) {
        let dir = lemma_index_path(name);
        let own_dir = lemma_index_path(own);
        lemma_behind_last_slash(dir, name, own_dir, own);
    }
}

/// A published version is in the index that clients see, whatever the upstream has of the crate:
/// exactly once, and with the line that was published.
pub proof fn law_published_version_is_served(
    upstream: Seq<index::LineView>,
    local: Seq<index::LineView>,
    line: index::LineView,
    vers: Seq<char>,
)
    requires
        index::is_about(line, vers),
    ensures
        index::about_version(
            index::merged(upstream, index::without_version(local, vers).push(line)),
            vers,
        ) == seq![line],
{
    let after = index::without_version(local, vers).push(line);
    assert(index::is_about(after[after.len() - 1], vers));
    index::law_local_versions_win(upstream, after, vers);
    reveal(Seq::filter);
    assert(after.drop_last() =~= index::without_version(local, vers));
    assert(index::about_version(after, vers).last() == line);
}

// ---------------------------------------------------------------------------
// Downloading
// ---------------------------------------------------------------------------

/// How a download request goes on.
#[derive(Debug)]
pub enum DownloadStep {
    /// It is answered from the local layer
    Serve(InternalResponse),
    /// It goes on to the upstream
    Fetch(OutboundRequest),
}

/// The address of a crate file at the upstream.
pub open spec fn download_address(
    upstream_api: Seq<char>,
    name: Seq<char>,
    version: Seq<char>,
) -> Seq<char> {
    upstream_api + "/api/v1/crates/"@ + name + "/"@ + version + "/download"@
}

/// The address of a crate file at the upstream.
pub fn download_url(upstream_api: &str, name: &str, version: &str) -> (r: String)
    ensures
        r@ == download_address(upstream_api@, name@, version@),
{
    let mut url = text::concat3(upstream_api, "/api/v1/crates/", name);
    url.append("/");
    url.append(version);
    url.append("/download");
    url
}

/// How a download request goes on, where `local` is the crate file of the local layer, and nothing
/// where it is not there or cannot be read: a local file is served; else the request goes on to
/// the upstream.
pub fn handle_api_download(
    upstream_api: &str,
    name: &str,
    version: &str,
    headers: &[Header],
    local: Option<Vec<u8>>,
) -> (r: DownloadStep)
    ensures
        local matches Some(data) ==> r is Serve && r->Serve_0@ == response::typed_reply(
            response::OK,
            "application/gzip"@,
            data@,
        ),
        local is None ==> r is Fetch && r->Fetch_0@ == proxy::api_call(
            "GET"@,
            download_address(upstream_api@, name@, version@),
            response::header_views(headers@),
            None,
        ),
        local is None ==> r is Fetch && r->Fetch_0@ == (response::RequestView {
            method: "GET"@,
            url: download_address(upstream_api@, name@, version@),
            headers: response::selected(
                response::header_views(headers@),
                seq!["authorization"@, "content-type"@, "accept"@],
            ),
            body: None,
        }),
{
    match local {
        Some(data) => DownloadStep::Serve(
            InternalResponse::typed(response::OK, "application/gzip", data),
        ),
        None => {
            let url = download_url(upstream_api, name, version);
            DownloadStep::Fetch(proxy::api_request("GET", url.as_str(), headers, None))
        },
    }
}

// ---------------------------------------------------------------------------
// Laws
// ---------------------------------------------------------------------------

/// A crate is turned away exactly when publishing is not permissive and its metadata has no
/// description, neither a license nor a license file, or more than five keywords.
pub proof fn law_who_is_turned_away(metadata: PublishMetadata, permissive: bool)
    ensures
        !is_turned_away(metadata, permissive) <==> permissive || {
            &&& metadata.description is Some && metadata.description->0@.len() > 0
            &&& (metadata.license is Some && metadata.license->0@.len() > 0) || (
            metadata.license_file is Some && metadata.license_file->0@.len() > 0)
            &&& metadata.keywords@.len() <= 5
        },
{
    types::law_valid_metadata_says_enough(metadata);
}

/// A publish request whose metadata decodes is accepted exactly when publishing is permissive or
/// the metadata has a description, a license or a license file, and at most five keywords, and its
/// crate file is there; what is accepted is what it holds. Every other one is a bad request, which
/// says what is wrong: each shortcoming of the metadata, before anything else.
pub proof fn law_who_is_accepted(
    result: Result<(PublishMetadata, &[u8]), InternalResponse>,
    body: Seq<u8>,
    permissive: bool,
    metadata: PublishMetadata,
)
    requires
        is_accepted(
            result,
            body,
            permissive,
            Ok::<PublishMetadata, serde_json::Error>(metadata),
        ),
    ensures
        ({
            let passes = permissive || {
                &&& metadata.description is Some && metadata.description->0@.len() > 0
                &&& (metadata.license is Some && metadata.license->0@.len() > 0) || (
                metadata.license_file is Some && metadata.license_file->0@.len() > 0)
                &&& metadata.keywords@.len() <= 5
            };
            &&& result is Ok <==> passes && endpoints::crate_bytes(body) is Some
            &&& result matches Ok(taken) ==> taken.0 == metadata && endpoints::crate_bytes(body)
                == Some(taken.1@)
            &&& result matches Err(reply) ==> reply@.status == 400
            &&& !passes ==> result->Err_0@.body == encode_utf8(
                "Validation failed: "@ + text::joined(types::validation_errors(metadata), "; "@),
            )
            &&& passes && result is Err ==> result->Err_0@.body == encode_utf8(
                "Request body too short"@,
            )
        }),
{
    types::law_valid_metadata_says_enough(metadata);
}

/// A publish request whose metadata does not decode is a bad request, which says why.
pub proof fn law_undecodable_metadata_is_refused(
    result: Result<(PublishMetadata, &[u8]), InternalResponse>,
    body: Seq<u8>,
    permissive: bool,
    e: serde_json::Error,
)
    requires
        is_accepted(
            result,
            body,
            permissive,
            Err::<PublishMetadata, serde_json::Error>(e),
        ),
    ensures
        result is Err && result->Err_0@.status == 400,
        exists|detail: Seq<char>| #[trigger]
            outside::json_error_says(e, detail) && result->Err_0@.body == encode_utf8(
                "Invalid metadata: "@ + detail,
            ),
{
}

/// A publish stores the crate file as it came, and under the name and version that were published;
/// the entry that it writes speaks of them and has the file's checksum, and the new line replaces
/// those about the published version.
pub proof fn law_plan_is_of_what_was_published(
    plan: PublishPlan,
    metadata: PublishMetadata,
    data: Seq<u8>,
    i: int,
)
    requires
        is_plan_of(plan, metadata, data),
    ensures
        plan.crate_data@ == data,
        plan.vers@ == metadata.vers@,
        text::texts(plan.crate_dir@) == seq!["crates"@, metadata.name@],
        text::texts(plan.crate_file@) == seq![
            "crates"@,
            metadata.name@,
            metadata.vers@ + ".crate"@,
        ],
        text::texts(plan.index_file@) == publish::index_file(text::lowercase(metadata.name@)),
        plan.entry.name@ == metadata.name@,
        plan.entry.vers@ == metadata.vers@,
        plan.entry.cksum@ == checksum_text(data),
        plan.entry.features == metadata.features,
        plan.entry.links == metadata.links,
        plan.entry.rust_version == metadata.rust_version,
        !plan.entry.yanked,
        plan.entry.deps@.len() == metadata.deps@.len(),
        0 <= i < metadata.deps@.len() ==> {
            let listed = plan.entry.deps@[i];
            let given = metadata.deps@[i];
            &&& listed.req == given.version_req
            &&& listed.features == given.features
            &&& listed.optional == given.optional
            &&& listed.default_features == given.default_features
            &&& listed.target == given.target
            &&& listed.kind == given.kind
            &&& listed.registry == given.registry
            &&& given.explicit_name_in_toml is Some ==> listed.name
                == given.explicit_name_in_toml->0 && listed.package == Some(given.name)
            &&& given.explicit_name_in_toml is None ==> listed.name == given.name
                && listed.package is None
        },
{
    types::law_entry_says_what_was_published(plan.entry, metadata, checksum_text(data), i);
}

/// Crates are stored by their names and versions, below one directory.
pub proof fn law_storage_layout(name: Seq<char>, version: Seq<char>)
    ensures
        path_of(crate_dir(name)) == "crates/"@ + name,
        path_of(crate_file(name, version)) == "crates/"@ + name + "/"@ + version + ".crate"@,
{
    reveal_strlit("crates/");
    reveal_strlit("crates");
    reveal_strlit("/");
    lemma_crate_path(name, version);
    assert("crates/"@ =~= "crates"@ + "/"@);
    assert(path_of(crate_file(name, version)) =~= "crates/"@ + name + "/"@ + version + ".crate"@);
    reveal_with_fuel(text::joined, 3);
    assert(crate_dir(name).drop_first() =~= seq![name]);
}

/// The checksum of a crate file gives its digest back, two digits for each byte.
pub proof fn law_checksums_read_back(data: Seq<u8>, i: int)
    requires
        0 <= i < outside::sha256(data).len(),
    ensures
        checksum_text(data).len() == 2 * outside::sha256(data).len(),
        text::hex_value(checksum_text(data)[2 * i]) * 16 + text::hex_value(
            checksum_text(data)[2 * i + 1],
        ) == outside::sha256(data)[i],
{
    text::law_hex_reads_back(outside::sha256(data), i);
}

/// The steps of storing a crate, in their order.
pub proof fn law_steps_in_order()
    ensures
        step_after(0) == PublishStep::CreateCrateDir,
        step_after(1) == PublishStep::CreateCrateFile,
        step_after(2) == PublishStep::WriteCrate,
        step_after(3) == PublishStep::CreateIndexDir,
        step_after(4) == PublishStep::EncodeEntry,
        step_after(5) == PublishStep::WriteIndex,
        step_after(6) == PublishStep::Done,
{
    reveal_with_fuel(step_after, 8);
}

/// A crate file has at the upstream the address that a configuration of the upstream gives it: the
/// name and the version below where it says that crates are.
pub proof fn law_downloads_follow_the_config(
    config: types::RegistryConfig,
    upstream_api: Seq<char>,
    name: Seq<char>,
    version: Seq<char>,
)
    requires
        endpoints::is_config_of(config, upstream_api),
    ensures
        download_address(upstream_api, name, version) == config.dl@ + "/"@ + name + "/"@ + version
            + "/download"@,
{
    reveal_strlit("/api/v1/crates/");
    reveal_strlit("/api/v1/crates");
    reveal_strlit("/");
    assert("/api/v1/crates/"@ =~= "/api/v1/crates"@ + "/"@);
    assert(download_address(upstream_api, name, version) =~= config.dl@ + "/"@ + name + "/"@
        + version + "/download"@);
}

/// What is said of each step that failed, before the error's own text.
pub proof fn law_failed_steps_are_told_apart(step: PublishStep)
    ensures
        step is CreateCrateDir ==> failure_text(step) == "Failed to create directory: "@,
        step is CreateCrateFile ==> failure_text(step) == "Failed to create crate file: "@,
        step is WriteCrate ==> failure_text(step) == "Failed to write crate: "@,
        step is CreateIndexDir ==> failure_text(step) == "Failed to create index dir: "@,
        step is EncodeEntry ==> failure_text(step) == "Failed to serialize: "@,
        step is WriteIndex ==> failure_text(step) == "Failed to write index: "@,
{
}

/// Storing ends at the first step that fails, with an internal error that says which one it was and
/// why; every other step leads on to the next one.
pub proof fn law_storing_ends_at_a_failure(
    step: PublishStep,
    failure: Option<&str>,
    r: Result<PublishStep, InternalResponse>,
)
    requires
        step != PublishStep::Done,
        call_ensures(advance_publish, (step, failure), r),
    ensures
        r is Ok <==> failure is None,
        r matches Ok(next) ==> next == next_step(step),
        failure matches Some(said) ==> r is Err && r->Err_0@.status == 500 && r->Err_0@.body
            == vstd::utf8::encode_utf8(failure_text(step) + said@),
{
}

} // verus!
