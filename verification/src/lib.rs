//! Collates file resources declared by packages across a build dependency
//! graph into a single output directory for a consuming package.
//!
//! Packages declare resources in their metadata; the consuming package names
//! the resources it requires, optionally pinned to a content hash. The
//! library computes the dependency closure of the consumer, gathers and
//! validates the declarations of every in-scope package, resolves the
//! consumer's requirements against them, decides for each requirement
//! whether the file must be copied, and renders the record of what was
//! synchronized. All file-system and process I/O stays with the caller.
use vstd::prelude::*;

mod declarations;
mod errors;
mod graph;
mod hashing;
mod json;
mod paths;
mod record;
mod registry;
mod requirements;
mod reporting;
mod resource_encoding;
mod specifications;
mod sync;

pub use declarations::ResourceConsumerDeclaration;
pub use declarations::ResourceDataDeclaration;
pub use declarations::ResourceRequirementDeclaration;
pub use errors::CollationError;
pub use graph::get_package_details;
pub use hashing::ContentHasher;
pub use json::JsonValue;
pub use paths::file_name_of;
pub use paths::is_absolute_path;
pub use paths::join_paths;
pub use paths::parent_path;
pub use paths::path_starts_with;
pub use record::render_resolved_record;
pub use registry::collect_declared_resources;
pub use registry::get_package_resource_data;
pub use registry::Registry;
pub use requirements::get_resource_requirement;
pub use sync::check_required_sha;
pub use sync::needs_copy;
pub use sync::resolve_requirement;
pub use sync::target_path_for;
pub use sync::verify_resource_is_in_root;
pub use reporting::BuildLogLevel;
pub use reporting::BuildRsReporter;
pub use reporting::DefaultReporter;
pub use reporting::ReportEvent;
pub use resource_encoding::ResourceEncoding;
pub use specifications::DependencyNode;
pub use specifications::PackageDetails;
pub use specifications::PackageModel;
pub use specifications::ResourceConsumerSpecification;
pub use specifications::ResourceRequirement;
pub use specifications::ResourceSpecification;

verus! {

/// The name under which a resource is declared and required.
pub type ResourceName = String;

/// A hex-encoded SHA-256 value of a resource's content.
pub type ResourceSha = String;

} // verus!
