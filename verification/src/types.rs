//! What cargo sends and reads: publish metadata, index entries, and the answers to both.

use std::collections::HashMap;

use crate::text;
use vstd::prelude::*;
use vstd::string::*;

verus! {

broadcast use vstd::string::group_string_axioms;

/// Publish request metadata (from cargo).
#[derive(Debug)]
pub struct PublishMetadata {
    pub name: String,
    pub vers: String,
    pub deps: Vec<PublishDependency>,
    pub features: HashMap<String, Vec<String>>,
    pub authors: Vec<String>,
    pub description: Option<String>,
    pub documentation: Option<String>,
    pub homepage: Option<String>,
    pub readme: Option<String>,
    pub readme_file: Option<String>,
    pub keywords: Vec<String>,
    pub categories: Vec<String>,
    pub license: Option<String>,
    pub license_file: Option<String>,
    pub repository: Option<String>,
    pub links: Option<String>,
    pub rust_version: Option<String>,
}

/// Dependency in a publish request.
#[derive(Debug)]
pub struct PublishDependency {
    pub name: String,
    pub version_req: String,
    pub features: Vec<String>,
    pub optional: bool,
    pub default_features: bool,
    pub target: Option<String>,
    pub kind: Option<String>,
    pub registry: Option<String>,
    pub explicit_name_in_toml: Option<String>,
}

/// What `default_features` of a dependency is where a publish request does not say.
pub fn default_true() -> (r: bool)
    ensures
        r,
{
    true
}

/// Index entry for a crate version.
#[derive(Debug)]
pub struct IndexEntry {
    pub name: String,
    pub vers: String,
    pub deps: Vec<IndexDependency>,
    pub cksum: String,
    pub features: HashMap<String, Vec<String>>,
    pub yanked: bool,
    pub links: Option<String>,
    pub rust_version: Option<String>,
}

/// Dependency in an index entry.
#[derive(Debug)]
pub struct IndexDependency {
    pub name: String,
    pub req: String,
    pub features: Vec<String>,
    pub optional: bool,
    pub default_features: bool,
    pub target: Option<String>,
    pub kind: Option<String>,
    pub registry: Option<String>,
    pub package: Option<String>,
}

/// Publish response.
#[derive(Debug)]
pub struct PublishResponse {
    pub warnings: PublishWarnings,
}

#[derive(Debug)]
pub struct PublishWarnings {
    pub invalid_categories: Vec<String>,
    pub invalid_badges: Vec<String>,
    pub other: Vec<String>,
}

/// The `config.json` that points cargo to the proxy.
#[derive(Debug)]
pub struct RegistryConfig {
    pub dl: String,
    pub api: String,
    pub auth_required: Option<bool>,
}

// ---------------------------------------------------------------------------
// From a publish request to the index
// ---------------------------------------------------------------------------

/// A dependency as the index lists it. Where the manifest renames the dependency, the new name
/// stands under `name` and the crate's own under `package`.
pub open spec fn index_dependency(d: PublishDependency) -> IndexDependency {
    IndexDependency {
        name: match d.explicit_name_in_toml {
            Some(alias) => alias,
            None => d.name,
        },
        req: d.version_req,
        features: d.features,
        optional: d.optional,
        default_features: d.default_features,
        target: d.target,
        kind: d.kind,
        registry: d.registry,
        package: match d.explicit_name_in_toml {
            Some(_) => Some(d.name),
            None => None,
        },
    }
}

/// Whether `entry` is what the index says of the crate version `metadata` with the checksum
/// `cksum`.
pub open spec fn is_entry_of(entry: IndexEntry, metadata: PublishMetadata, cksum: Seq<char>) -> bool {
    &&& entry.name@ == metadata.name@
    &&& entry.vers@ == metadata.vers@
    &&& entry.deps@ == metadata.deps@.map_values(|d: PublishDependency| index_dependency(d))
    &&& entry.cksum@ == cksum
    &&& entry.features == metadata.features
    &&& !entry.yanked
    &&& entry.links == metadata.links
    &&& entry.rust_version == metadata.rust_version
}

impl PublishDependency {
    /// The dependency as the index lists it.
    pub fn into_index(self) -> (r: IndexDependency)
        ensures
            r == index_dependency(self),
    {
        let (name, package) = match self.explicit_name_in_toml {
            Some(alias) => (alias, Some(self.name)),
            None => (self.name, None),
        };
        IndexDependency {
            name,
            req: self.version_req,
            features: self.features,
            optional: self.optional,
            default_features: self.default_features,
            target: self.target,
            kind: self.kind,
            registry: self.registry,
            package,
        }
    }
}

impl PublishMetadata {
    /// The index entry for this crate version, whose file has the checksum `cksum`.
    pub fn into_entry(self, cksum: String) -> (r: IndexEntry)
        ensures
            is_entry_of(r, self, cksum@),
    {
        let ghost all = self.deps@;
        let mut deps: Vec<IndexDependency> = Vec::new();
        for d in it: self.deps
            invariant
                it.seq() == all,
                deps@ == all.take(it.index() as int).map_values(
                    |d: PublishDependency| index_dependency(d),
                ),
        {
            deps.push(d.into_index());
        }
        assert(all.take(all.len() as int) == all);
        IndexEntry {
            name: self.name,
            vers: self.vers,
            deps,
            cksum,
            features: self.features,
            yanked: false,
            links: self.links,
            rust_version: self.rust_version,
        }
    }
}

impl PublishResponse {
    /// The answer to a publish that went through: no warnings.
    pub fn without_warnings() -> (r: Self)
        ensures
            r.warnings.invalid_categories@.len() == 0,
            r.warnings.invalid_badges@.len() == 0,
            r.warnings.other@.len() == 0,
    {
        PublishResponse {
            warnings: PublishWarnings {
                invalid_categories: Vec::new(),
                invalid_badges: Vec::new(),
                other: Vec::new(),
            },
        }
    }
}

// ---------------------------------------------------------------------------
// Validation
// ---------------------------------------------------------------------------

/// The most keywords that a published crate may have.
pub const MAX_KEYWORDS: usize = 5;

/// Whether an optional text says nothing.
pub open spec fn says_nothing(field: Option<String>) -> bool {
    match field {
        Some(text) => text@.len() == 0,
        None => true,
    }
}

/// What keeps crates.io from taking a crate with this metadata, in the order in which it is
/// reported: a description and a license (its name or its file) have to be there, and no more
/// than `MAX_KEYWORDS` keywords.
pub open spec fn validation_errors(metadata: PublishMetadata) -> Seq<Seq<char>> {
    let description = if says_nothing(metadata.description) {
        seq!["missing required metadata: description"@]
    } else {
        Seq::empty()
    };
    let license = if says_nothing(metadata.license) && says_nothing(metadata.license_file) {
        seq!["missing required metadata: license or license-file"@]
    } else {
        Seq::empty()
    };
    let keywords = if metadata.keywords@.len() > MAX_KEYWORDS {
        seq!["too many keywords: at most 5 are allowed"@]
    } else {
        Seq::empty()
    };
    description + license + keywords
}

fn is_blank(field: &Option<String>) -> (r: bool)
    ensures
        r == says_nothing(*field),
{
    match field {
        Some(text) => text.as_str().is_empty(),
        None => true,
    }
}

impl PublishMetadata {
    /// What keeps crates.io from taking a crate with this metadata; nothing, where it would.
    pub fn validate(&self) -> (r: Vec<String>)
        ensures
            text::texts(r@) == validation_errors(*self),
    {
        let mut errors: Vec<String> = Vec::new();
        if is_blank(&self.description) {
            errors.push(String::from_str("missing required metadata: description"));
        }
        if is_blank(&self.license) && is_blank(&self.license_file) {
            errors.push(String::from_str("missing required metadata: license or license-file"));
        }
        if self.keywords.len() > MAX_KEYWORDS {
            errors.push(String::from_str("too many keywords: at most 5 are allowed"));
        }
        assert(text::texts(errors@) =~= validation_errors(*self));
        errors
    }
}

/// A crate passes validation exactly when it has a description, a license or a license file, and
/// no more keywords than are allowed.
pub proof fn law_valid_metadata(metadata: PublishMetadata)
    ensures
        validation_errors(metadata).len() == 0 <==> {
            &&& !says_nothing(metadata.description)
            &&& !says_nothing(metadata.license) || !says_nothing(metadata.license_file)
            &&& metadata.keywords@.len() <= MAX_KEYWORDS
        },
{
}

/// A crate passes validation exactly when its description says something, its license or its
/// license file is given and says something, and it has at most five keywords.
pub proof fn law_valid_metadata_says_enough(metadata: PublishMetadata)
    ensures
        validation_errors(metadata).len() == 0 <==> {
            &&& metadata.description is Some && metadata.description->0@.len() > 0
            &&& (metadata.license is Some && metadata.license->0@.len() > 0) || (
            metadata.license_file is Some && metadata.license_file->0@.len() > 0)
            &&& metadata.keywords@.len() <= 5
        },
{
}

/// Each thing that is wrong with a crate's metadata is reported, and nothing else is.
pub proof fn law_each_shortcoming_is_reported(metadata: PublishMetadata)
    ensures
        validation_errors(metadata).contains("missing required metadata: description"@) <==> !(
        metadata.description is Some && metadata.description->0@.len() > 0),
        validation_errors(metadata).contains("missing required metadata: license or license-file"@)
            <==> !(metadata.license is Some && metadata.license->0@.len() > 0) && !(
        metadata.license_file is Some && metadata.license_file->0@.len() > 0),
        validation_errors(metadata).contains("too many keywords: at most 5 are allowed"@)
            <==> metadata.keywords@.len() > 5,
        validation_errors(metadata).len() <= 3,
        forall|i: int, j: int|
            0 <= i < j < validation_errors(metadata).len() ==> validation_errors(metadata)[i]
                != validation_errors(metadata)[j],
{
    reveal_strlit("missing required metadata: description");
    reveal_strlit("missing required metadata: license or license-file");
    reveal_strlit("too many keywords: at most 5 are allowed");
    let description = "missing required metadata: description"@;
    let license = "missing required metadata: license or license-file"@;
    let keywords = "too many keywords: at most 5 are allowed"@;
    assert(description.len() != license.len());
    assert(description.len() != keywords.len());
    assert(license.len() != keywords.len());
    let all = validation_errors(metadata);
    let first = if says_nothing(metadata.description) {
        1int
    } else {
        0
    };
    let second = if says_nothing(metadata.license) && says_nothing(metadata.license_file) {
        first + 1
    } else {
        first
    };
    if says_nothing(metadata.description) {
        assert(all[0] == description);
    }
    if second > first {
        assert(all[first] == license);
    }
    if metadata.keywords@.len() > 5 {
        assert(all[second] == keywords);
    }
}

/// What the index says of a dependency is what the publish request says of it, field by field. Its
/// own name is the package's where the manifest gives it another one.
pub proof fn law_dependency_is_listed_as_published(d: PublishDependency)
    ensures
        index_dependency(d).req == d.version_req,
        index_dependency(d).features == d.features,
        index_dependency(d).optional == d.optional,
        index_dependency(d).default_features == d.default_features,
        index_dependency(d).target == d.target,
        index_dependency(d).kind == d.kind,
        index_dependency(d).registry == d.registry,
        d.explicit_name_in_toml is Some ==> index_dependency(d).name
            == d.explicit_name_in_toml->0 && index_dependency(d).package == Some(d.name),
        d.explicit_name_in_toml is None ==> index_dependency(d).name == d.name && index_dependency(
            d,
        ).package is None,
{
}

/// A dependency is fixed by what the index says of it: two that are listed alike were published
/// alike.
pub proof fn law_dependency_can_be_recovered(a: PublishDependency, b: PublishDependency)
    requires
        index_dependency(a) == index_dependency(b),
    ensures
        a == b,
{
}

/// The index entry of a publish has the name, version, features, links and Rust version of the
/// request, the given checksum, and is not yanked; at the place of each dependency of the request
/// it has one with the same requirement, features, target, kind and registry, as optional, and with
/// as much of the default features.
pub proof fn law_entry_says_what_was_published(
    entry: IndexEntry,
    metadata: PublishMetadata,
    cksum: Seq<char>,
    i: int,
)
    requires
        is_entry_of(entry, metadata, cksum),
    ensures
        entry.name@ == metadata.name@,
        entry.vers@ == metadata.vers@,
        entry.cksum@ == cksum,
        entry.features == metadata.features,
        entry.links == metadata.links,
        entry.rust_version == metadata.rust_version,
        !entry.yanked,
        entry.deps@.len() == metadata.deps@.len(),
        0 <= i < metadata.deps@.len() ==> {
            let listed = entry.deps@[i];
            let given = metadata.deps@[i];
            &&& listed.req == given.version_req
            &&& listed.features == given.features
            &&& listed.optional == given.optional
            &&& listed.default_features == given.default_features
            &&& listed.target == given.target
            &&& listed.kind == given.kind
            &&& listed.registry == given.registry
            &&& given.explicit_name_in_toml is Some ==> listed.name
                == given.explicit_name_in_toml->0 && listed.package == Some(given.name)
            &&& given.explicit_name_in_toml is None ==> listed.name == given.name
                && listed.package is None
        },
{
}

} // verus!
