//! The resource synchronizer's decisions: which file a requirement names,
//! where it goes, whether the destination is contained in the root,
//! whether a pinned hash is honored, and whether a copy is needed at all.
//!
//! The caller performs the file operations around these decisions: it
//! creates directories, canonicalizes paths, feeds file content to the
//! hasher, and copies when told to. Each decision here is final over the
//! values handed in.
use vstd::prelude::*;
use vstd::string::*;

use crate::errors::CollationError;
use crate::hashing::{sha256_of, spec_hex_encode};
use crate::json::str_eq;
use crate::paths::{join_paths, path_starts_with, spec_join_paths, spec_path_starts_with};
use crate::registry::Registry;
use crate::reporting::spec_missing_message;
use crate::specifications::{ResourceRequirement, ResourceSpecification};

verus! {

/// Look up the declaration a requirement names; an unmet requirement is
/// fatal.
pub fn resolve_requirement<'a>(
    declared_resources: &'a Registry,
    requirement: &ResourceRequirement,
) -> (r: Result<&'a ResourceSpecification, CollationError>)
    ensures
        match r {
            Ok(s) => declared_resources.lookup(requirement.resource_name@) == Some(*s),
            Err(e) => {
                &&& declared_resources.lookup(requirement.resource_name@) is None
                &&& e is RequirementError
                &&& e.spec_message() == spec_missing_message(requirement.resource_name@)
            },
        },
{
    match declared_resources.get(requirement.resource_name.as_str()) {
        Some(s) => Ok(s),
        None => {
            let mut m = "No resource found matching requirement ".to_owned();
            m.append(requirement.resource_name.as_str());
            Err(CollationError::RequirementError(m))
        },
    }
}

/// The path a specification's file lands at under the resource root.
pub fn target_path_for(resource_root: &str, specification: &ResourceSpecification) -> (r: String)
    ensures
        r@ == spec_join_paths(resource_root@, specification.output_path@),
{
    join_paths(resource_root, specification.output_path.as_str())
}

/// The message a containment failure carries.
pub open spec fn spec_containment_message(
    canonical_resource_parent: Seq<char>,
    canonical_root_path: Seq<char>,
) -> Seq<char> {
    "Can't copy to \""@ + canonical_resource_parent + "\" as not in resource root \""@
        + canonical_root_path + "\""@
}

/// Containment: the canonical parent directory of the target must lie at
/// or under the canonical resource root; anything else fails closed. This
/// defends against `..`-style escapes and symlink redirection smuggled
/// through declared output paths.
pub fn verify_resource_is_in_root(
    canonical_resource_parent: &str,
    canonical_root_path: &str,
) -> (r: Result<(), CollationError>)
    ensures
        r is Ok <==> spec_path_starts_with(canonical_resource_parent@, canonical_root_path@),
        r matches Err(e) ==> e is PathSecurityError && e.spec_message()
            == spec_containment_message(canonical_resource_parent@, canonical_root_path@),
{
    if path_starts_with(canonical_resource_parent, canonical_root_path) {
        Ok(())
    } else {
        let mut m = "Can't copy to \"".to_owned();
        m.append(canonical_resource_parent);
        m.append("\" as not in resource root \"");
        m.append(canonical_root_path);
        m.append("\"");
        Err(CollationError::PathSecurityError(m))
    }
}

/// The message a pinned-hash mismatch carries.
pub open spec fn spec_hash_mismatch_message(
    resource_name: Seq<char>,
    new_sha: Seq<char>,
    required_sha: Seq<char>,
) -> Seq<char> {
    "Resource "@ + resource_name + " with sha "@ + new_sha + " does not match required sha "@
        + required_sha + "."@
}

/// Honor a pinned hash: when the requirement pins one and it differs from
/// the computed hash of the source, the run fails and nothing is copied.
pub fn check_required_sha(requirement: &ResourceRequirement, new_sha: &String) -> (r: Result<
    (),
    CollationError,
>)
    ensures
        r is Ok <==> match requirement.required_sha {
            Some(required) => required@ == new_sha@,
            None => true,
        },
        r matches Err(e) ==> {
            &&& e is RequirementError
            &&& requirement.required_sha matches Some(required) && e.spec_message()
                == spec_hash_mismatch_message(requirement.resource_name@, new_sha@, required@)
        },
{
    match &requirement.required_sha {
        Some(required) => {
            if str_eq(required.as_str(), new_sha.as_str()) {
                Ok(())
            } else {
                let mut m = "Resource ".to_owned();
                m.append(requirement.resource_name.as_str());
                m.append(" with sha ");
                m.append(new_sha.as_str());
                m.append(" does not match required sha ");
                m.append(required.as_str());
                m.append(".");
                Err(CollationError::RequirementError(m))
            }
        },
        None => Ok(()),
    }
}

/// The copy decision: a copy happens exactly when no destination content
/// exists or its hash differs from the source's.
pub open spec fn spec_needs_copy(new_sha: Seq<char>, existing_sha: Option<Seq<char>>) -> bool {
    match existing_sha {
        Some(existing) => existing != new_sha,
        None => true,
    }
}

/// Decide whether the source must be copied over the destination, from
/// the source's hash and the destination's, when the destination exists.
/// Matching hashes skip the copy, so an unchanged resource never has its
/// destination rewritten.
pub fn needs_copy(new_sha: &String, existing_sha: &Option<String>) -> (r: bool)
    ensures
        r == spec_needs_copy(
            new_sha@,
            match *existing_sha {
                Some(existing) => Some(existing@),
                None => None,
            },
        ),
{
    match existing_sha {
        Some(existing) => !str_eq(existing.as_str(), new_sha.as_str()),
        None => true,
    }
}

/// Law: synchronization is idempotent. After a copy the destination holds
/// the source's bytes, so on a second run over an unchanged source both
/// sides hash alike and no copy is performed: destination content and
/// modification state stay untouched.
pub proof fn lemma_sync_idempotent(source_content: Seq<u8>)
    ensures
        !spec_needs_copy(
            spec_hex_encode(sha256_of(source_content)),
            Some(spec_hex_encode(sha256_of(source_content))),
        ),
{
}

} // verus!
