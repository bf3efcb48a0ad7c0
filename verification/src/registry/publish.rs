//! The registry that cargo makes while it publishes, and where a registry keeps a crate's index.

use crate::registry::RegistryError;
use crate::text;
use crate::types::{IndexEntry, PublishMetadata};
use std::path::PathBuf;
use vstd::prelude::*;
use vstd::string::*;
use vstd::utf8::*;

verus! {

broadcast use vstd::string::group_string_axioms;

/// A read-only registry for cargo's tmp-registry created during `cargo publish`.
///
/// Cargo creates this registry at `{target_dir}/package/tmp-registry` to make
/// packaged crates available during the verification step. This allows build
/// scripts that call `cargo metadata` to resolve workspace dependencies.
///
/// The tmp-registry has a specific format:
/// - Index files: `index/{prefix}/{name}` (same as standard registries)
/// - Crate files: `{name}-{version}.crate` (directly in root, not in subdirs)
#[derive(Debug)]
pub struct PublishRegistry {
    /// Path to the tmp-registry directory
    pub path: PathBuf,
}

// ---------------------------------------------------------------------------
// Where the index of a crate stands
// ---------------------------------------------------------------------------

/// The characters of `s` whose UTF-8 bytes are those from `from` up to `to`.
pub open spec fn byte_part(s: Seq<char>, from: int, to: int) -> Seq<char> {
    decode_utf8(encode_utf8(s).subrange(from, to))
}

/// Whether an index has a place for `name`: it is not empty, and the directories that are cut
/// from its bytes do not cut a character in two.
pub open spec fn has_index_path(name: Seq<char>) -> bool {
    let bytes = encode_utf8(name);
    &&& bytes.len() > 0
    &&& bytes.len() == 3 ==> is_char_boundary(bytes, 1)
    &&& bytes.len() > 3 ==> is_char_boundary(bytes, 2) && is_char_boundary(bytes, 4)
}

/// Where the index file of the crate with the lower-case name `name` stands below a registry's
/// directory, one path component after the other. The directory goes by the number of the
/// name's bytes.
pub open spec fn index_file(name: Seq<char>) -> Seq<Seq<char>> {
    let n = encode_utf8(name).len();
    if n == 1 {
        seq!["index"@, "1"@, name]
    } else if n == 2 {
        seq!["index"@, "2"@, name]
    } else if n == 3 {
        seq!["index"@, "3"@, byte_part(name, 0, 1), name]
    } else {
        seq!["index"@, byte_part(name, 0, 2), byte_part(name, 2, 4), name]
    }
}

/// The text of a slice is what its bytes decode to.
proof fn lemma_text_of_bytes(part: &str, bytes: Seq<u8>)
    requires
        part.spec_bytes() == bytes,
    ensures
        part@ == decode_utf8(bytes),
{
    encode_utf8_decode_utf8(part@);
}

/// Whether an index has a place for `name`.
pub fn check_index_name(name: &str) -> (r: bool)
    ensures
        r == has_index_path(name@),
{
    let n = name.as_bytes().len();
    if n == 0 {
        false
    } else if n < 3 {
        true
    } else if n == 3 {
        name.is_char_boundary(1)
    } else {
        name.is_char_boundary(2) && name.is_char_boundary(4)
    }
}

/// Where the index file of the crate with the lower-case name `name` stands below a registry's
/// directory.
pub fn index_components(name: &str) -> (r: Vec<String>)
    requires
        has_index_path(name@),
    ensures
        text::texts(r@) == index_file(name@),
{
    let ghost bytes = encode_utf8(name@);
    proof {
        encode_utf8_valid_utf8(name@);
    }
    let n = name.as_bytes().len();
    let mut out: Vec<String> = Vec::new();
    out.push(String::from_str("index"));
    if n == 1 {
        out.push(String::from_str("1"));
    } else if n == 2 {
        out.push(String::from_str("2"));
    } else if n == 3 {
        let (first, _rest) = name.split_at(1);
        proof {
            lemma_text_of_bytes(first, bytes.subrange(0, 1));
        }
        out.push(String::from_str("3"));
        out.push(String::from_str(first));
    } else {
        let (first, rest) = name.split_at(2);
        proof {
            lemma_text_of_bytes(first, bytes.subrange(0, 2));
            encode_utf8_valid_utf8(rest@);
            if bytes.len() > 4 {
                is_char_boundary_iff_not_is_continuation_byte(bytes, 4);
                is_char_boundary_iff_not_is_continuation_byte(rest.spec_bytes(), 2);
            } else {
                is_char_boundary_start_end_of_seq(rest.spec_bytes());
            }
        }
        let (second, _tail) = rest.split_at(2);
        proof {
            assert(second.spec_bytes() =~= bytes.subrange(2, 4));
            lemma_text_of_bytes(second, bytes.subrange(2, 4));
        }
        out.push(String::from_str(first));
        out.push(String::from_str(second));
    }
    out.push(String::from_str(name));
    assert(text::texts(out@) =~= index_file(name@));
    out
}

impl PublishRegistry {
    pub fn new(path: PathBuf) -> (r: Self)
        ensures
            r.path == path,
    {
        Self { path }
    }

    /// The components of the path to an index file for a crate name, below `path`.
    pub fn index_path(&self, crate_name: &str) -> (r: Vec<String>)
        requires
            has_index_path(text::lowercase(crate_name@)),
        ensures
            text::texts(r@) == index_file(text::lowercase(crate_name@)),
    {
        let name_lower = text::to_lowercase(crate_name);
        index_components(name_lower.as_str())
    }

    /// The components of the path to an index file for a crate name, below `path`; nothing where
    /// an index has no place for the name.
    pub fn checked_index_path(&self, crate_name: &str) -> (r: Option<Vec<String>>)
        ensures
            r is Some <==> has_index_path(text::lowercase(crate_name@)),
            r matches Some(parts) ==> text::texts(parts@) == index_file(
                text::lowercase(crate_name@),
            ),
    {
        let name_lower = text::to_lowercase(crate_name);
        if check_index_name(name_lower.as_str()) {
            Some(self.index_path(crate_name))
        } else {
            None
        }
    }

    /// The components of the path to a crate file, below `path`.
    /// tmp-registry stores crates as `{name}-{version}.crate` directly in the root.
    pub fn crate_path(&self, crate_name: &str, version: &str) -> (r: Vec<String>)
        ensures
            text::texts(r@) == seq![crate_name@ + "-"@ + version@ + ".crate"@],
    {
        let mut file = text::concat3(crate_name, "-", version);
        file.append(".crate");
        let mut out: Vec<String> = Vec::new();
        out.push(file);
        assert(text::texts(out@) =~= seq![crate_name@ + "-"@ + version@ + ".crate"@]);
        out
    }
}

// ---------------------------------------------------------------------------
// Looking up, downloading, publishing
// ---------------------------------------------------------------------------

/// The lines of an index file that hold something.
pub open spec fn filled_lines(content: Seq<char>) -> Seq<Seq<char>> {
    text::lines(content).filter(|line: Seq<char>| line.len() > 0)
}

/// The entries among decoded lines, where some are no index entry.
pub open spec fn present(decoded: Seq<Option<IndexEntry>>) -> Seq<IndexEntry>
    decreases decoded.len(),
{
    if decoded.len() == 0 {
        Seq::empty()
    } else {
        let before = present(decoded.drop_last());
        match decoded.last() {
            Some(entry) => before.push(entry),
            None => before,
        }
    }
}

/// Whether `decode` makes `result` of the text `line`.
pub open spec fn decodes_to<F: Fn(&str) -> Option<IndexEntry>>(
    decode: F,
    line: Seq<char>,
    result: Option<IndexEntry>,
) -> bool {
    exists|s: &str| s@ == line && #[trigger] call_ensures(decode, (s,), result)
}

/// Whether `decoded` is what `decode` makes of `lines`, one by one.
pub open spec fn is_decoded<F: Fn(&str) -> Option<IndexEntry>>(
    decoded: Seq<Option<IndexEntry>>,
    lines: Seq<Seq<char>>,
    decode: F,
) -> bool {
    &&& decoded.len() == lines.len()
    &&& forall|i: int| 0 <= i < lines.len() ==> decodes_to(decode, lines[i], #[trigger] decoded[i])
}

/// The lines that hold something, in their order.
pub fn split_filled_lines(content: &str) -> (r: Vec<String>)
    ensures
        text::texts(r@) == filled_lines(content@),
{
    let all = text::split_lines(content);
    let ghost given = all@;
    let ghost lines = text::lines(content@);
    let ghost keep = |line: Seq<char>| line.len() > 0;
    let mut out: Vec<String> = Vec::new();
    assert(text::texts(out@) =~= lines.take(0).filter(keep)) by {
        reveal(Seq::filter);
    }
    for line in it: all
        invariant
            it.seq() == given,
            lines == text::texts(given),
            keep == (|line: Seq<char>| line.len() > 0),
            text::texts(out@) == lines.take(it.index() as int).filter(keep),
    {
        let ghost n = it.index() as int;
        let ghost before = text::texts(out@);
        proof {
            reveal(Seq::filter);
            assert(lines.take(n + 1).drop_last() == lines.take(n));
            assert(lines.take(n + 1).last() == line@);
        }
        if !line.as_str().is_empty() {
            out.push(line);
            assert(text::texts(out@) =~= before.push(line@));
        }
    }
    assert(lines.take(lines.len() as int) == lines);
    out
}

impl PublishRegistry {
    /// The entries of a crate, where `content` is the text of its index file, and nothing where
    /// the file is not there or cannot be read. A line that `decode` makes no entry of is left
    /// out.
    pub fn lookup<F: Fn(&str) -> Option<IndexEntry>>(&self, content: Option<&str>, decode: F) -> (r:
        Result<Vec<IndexEntry>, RegistryError>)
        requires
            forall|line: &str| #[trigger] call_requires(decode, (line,)),
        ensures
            r is Ok,
            content is None ==> r->Ok_0@.len() == 0,
            content matches Some(content) ==> exists|decoded: Seq<Option<IndexEntry>>| #[trigger]
                is_decoded(decoded, filled_lines(content@), decode) && r->Ok_0@ == present(decoded),
    {
        let content = match content {
            None => return Ok(Vec::new()),
            Some(content) => content,
        };
        let lines = split_filled_lines(content);
        let ghost wanted = filled_lines(content@);
        let mut entries: Vec<IndexEntry> = Vec::new();
        let ghost mut decoded: Seq<Option<IndexEntry>> = Seq::empty();
        let mut i: usize = 0;
        while i < lines.len()
            invariant
                i <= lines@.len(),
                wanted == text::texts(lines@),
                forall|line: &str| #[trigger] call_requires(decode, (line,)),
                decoded.len() == i,
                forall|j: int| 0 <= j < i ==> decodes_to(decode, wanted[j], #[trigger] decoded[j]),
                entries@ == present(decoded),
            decreases lines@.len() - i,
        {
            let line = lines[i].as_str();
            let one = decode(line);
            proof {
                assert(call_ensures(decode, (line,), one));
                assert(decodes_to(decode, wanted[i as int], one));
                let grown = decoded.push(one);
                assert(grown.drop_last() =~= decoded);
                decoded = grown;
            }
            if let Some(entry) = one {
                entries.push(entry);
            }
            i += 1;
        }
        assert(is_decoded(decoded, wanted, decode));
        Ok(entries)
    }

    /// The crate file, where `file` is what reading it gave, and nothing where it is not there.
    pub fn download(&self, file: Option<Result<Vec<u8>, std::io::Error>>) -> (r: Result<
        Vec<u8>,
        RegistryError,
    >)
        ensures
            r == (match file {
                None => Err(RegistryError::NotFound),
                Some(Err(e)) => Err(RegistryError::Storage(e)),
                Some(Ok(data)) => Ok(data),
            }),
    {
        match file {
            None => Err(RegistryError::NotFound),
            Some(Err(e)) => Err(RegistryError::from(e)),
            Some(Ok(data)) => Ok(data),
        }
    }

    /// Nothing can be published here: the registry is read-only.
    pub fn publish(&self, _metadata: PublishMetadata, _crate_data: &[u8]) -> (r: Result<
        String,
        RegistryError,
    >)
        ensures
            r == Err::<String, RegistryError>(RegistryError::NotFound),
    {
        Err(RegistryError::NotFound)
    }
}

// ---------------------------------------------------------------------------
// Laws
// ---------------------------------------------------------------------------

/// A crate file that is there is what a download gives, as it is; one that is not there is not
/// found, and one that cannot be read is a bad gateway.
pub proof fn law_downloads_give_the_file(
    registry: &PublishRegistry,
    file: Option<Result<Vec<u8>, std::io::Error>>,
    outcome: Result<Vec<u8>, RegistryError>,
    reply: crate::response::InternalResponse,
)
    requires
        call_ensures(PublishRegistry::download, (registry, file), outcome),
        call_ensures(crate::endpoints::handle_api_download, (outcome,), reply),
    ensures
        file matches Some(Ok(data)) ==> reply@.status == 200 && reply@.body == data@,
        file is None ==> reply@.status == 404,
        file matches Some(Err(_)) ==> reply@.status == 502,
{
}

/// The index file of a crate with an ASCII name stands in a directory by the name's length and its
/// first characters, under the name itself.
pub proof fn law_index_files_by_name(name: Seq<char>)
    requires
        is_ascii_chars(name),
        name.len() > 0,
    ensures
        has_index_path(name),
        name.len() == 1 ==> index_file(name) == seq!["index"@, "1"@, name],
        name.len() == 2 ==> index_file(name) == seq!["index"@, "2"@, name],
        name.len() == 3 ==> index_file(name) == seq!["index"@, "3"@, name.take(1), name],
        name.len() > 3 ==> index_file(name) == seq![
            "index"@,
            name.take(2),
            name.subrange(2, 4),
            name,
        ],
{
    let bytes = encode_utf8(name);
    is_ascii_chars_encode_utf8(name);
    encode_utf8_valid_utf8(name);
    assert(bytes.len() == name.len());
    if name.len() == 3 {
        lemma_ascii_part(name, 0, 1);
        lemma_ascii_boundary(name, 1);
        assert(name.subrange(0, 1) =~= name.take(1));
    }
    if name.len() > 3 {
        lemma_ascii_part(name, 0, 2);
        lemma_ascii_part(name, 2, 4);
        lemma_ascii_boundary(name, 2);
        lemma_ascii_boundary(name, 4);
        assert(name.subrange(0, 2) =~= name.take(2));
    }
}

/// The bytes of a part of an ASCII text are those of its characters.
proof fn lemma_ascii_part(name: Seq<char>, from: int, to: int)
    requires
        is_ascii_chars(name),
        0 <= from <= to <= name.len(),
    ensures
        byte_part(name, from, to) == name.subrange(from, to),
{
    let part = name.subrange(from, to);
    let bytes = encode_utf8(name);
    is_ascii_chars_encode_utf8(name);
    is_ascii_chars_encode_utf8(part);
    assert(encode_utf8(part) =~= bytes.subrange(from, to));
    encode_utf8_decode_utf8(part);
}

/// An ASCII text can be cut anywhere.
proof fn lemma_ascii_boundary(name: Seq<char>, at: int)
    requires
        is_ascii_chars(name),
        0 <= at <= name.len(),
    ensures
        is_char_boundary(encode_utf8(name), at),
{
    let bytes = encode_utf8(name);
    is_ascii_chars_encode_utf8(name);
    encode_utf8_valid_utf8(name);
    if at < name.len() {
        assert(bytes[at] == name[at] as u8);
        assert(0 <= name[at] as u32 <= 0x7f);
        is_char_boundary_iff_not_is_continuation_byte(bytes, at);
        let b = bytes[at];
        assert(b <= 0x7f ==> b & 0xc0 != 0x80) by (bit_vector);
    } else {
        is_char_boundary_start_end_of_seq(bytes);
    }
}

/// A line of an index file is looked at exactly when it is one of its lines and not empty.
pub proof fn law_filled_lines_are_the_lines_that_hold_something(
    content: Seq<char>,
    line: Seq<char>,
)
    ensures
        filled_lines(content).contains(line) <==> text::lines(content).contains(line) && line.len()
            > 0,
{
    let all = text::lines(content);
    let keep = |line: Seq<char>| line.len() > 0;
    let kept = all.filter(keep);
    broadcast use vstd::seq_lib::group_filter_ensures;

    if kept.contains(line) {
        all.lemma_filter_contains_rev(keep, line);
        assert(exists|i: int| 0 <= i < kept.len() && keep(#[trigger] kept[i]) && kept[i] == line);
    }
    if all.contains(line) && line.len() > 0 {
        let i = choose|i: int| 0 <= i < all.len() && all[i] == line;
        assert(keep(all[i]));
        assert(kept.contains(all[i]));
    }
}

/// Where every line decodes, the entries are all of them, in their order; a line that does not
/// decode takes no other one away.
pub proof fn law_entries_are_those_that_decode(
    decoded: Seq<Option<IndexEntry>>,
    more: Option<IndexEntry>,
)
    ensures
        (forall|i: int| 0 <= i < decoded.len() ==> (#[trigger] decoded[i]) is Some) ==> present(
            decoded,
        ) == decoded.map_values(|one: Option<IndexEntry>| one->0),
        more matches Some(entry) ==> present(decoded.push(more)) == present(decoded).push(entry),
        more is None ==> present(decoded.push(more)) == present(decoded),
    decreases decoded.len(),
{
    let grown = decoded.push(more);
    assert(grown.drop_last() =~= decoded);
    if decoded.len() > 0 {
        let before = decoded.drop_last();
        law_entries_are_those_that_decode(before, more);
        if forall|i: int| 0 <= i < decoded.len() ==> (#[trigger] decoded[i]) is Some {
            assert forall|i: int| 0 <= i < before.len() implies (#[trigger] before[i]) is Some by {
                assert(before[i] == decoded[i]);
            }
            assert(decoded[decoded.len() - 1] is Some);
        }
    }
}

} // verus!
