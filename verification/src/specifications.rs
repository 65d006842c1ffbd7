//! The resolved data model: packages, dependency-graph nodes, resource
//! specifications and requirements.
use vstd::prelude::*;

use crate::json::JsonValue;
use crate::resource_encoding::ResourceEncoding;
use crate::{ResourceName, ResourceSha};

verus! {

/// The fully populated resource specification, derived from a package's
/// resource declaration. Immutable once constructed: a later declaration
/// of the same name supersedes it in the registry rather than mutating it.
#[derive(Debug, Clone, PartialEq)]
pub struct ResourceSpecification {
    /// The name of the declaring package.
    pub declaring_crate_name: String,
    /// The version of the declaring package, as its display text.
    pub declaring_crate_version: String,
    /// Whether the resource's file is text or binary.
    pub encoding: ResourceEncoding,
    /// The full path of the resource's file within the declaring package.
    pub full_crate_path: String,
    /// The path of the resource under the resource root.
    pub output_path: String,
    /// The unique name of the resource.
    pub resource_name: String,
}

/// The fully populated specification of the consuming package.
#[derive(Debug, PartialEq)]
pub struct ResourceConsumerSpecification {
    /// The path of the resource root, relative to the consumer's manifest
    /// directory.
    pub resource_root: String,
    /// The required resources.
    pub required_resources: Vec<ResourceRequirement>,
}

/// The fully populated specification for one resource usage.
#[derive(Debug, Clone, PartialEq)]
pub struct ResourceRequirement {
    /// The unique name of the required resource.
    pub resource_name: ResourceName,
    /// The optional hex-encoded SHA-256 value the resource must have.
    pub required_sha: Option<ResourceSha>,
}

/// One package of the universe: its identity, manifest directory and
/// metadata document.
#[derive(Debug)]
pub struct PackageModel {
    /// The package's identifier in the dependency graph.
    pub id: String,
    /// The package's name.
    pub name: String,
    /// The package's version, as its display text.
    pub version: String,
    /// The directory holding the package's manifest.
    pub manifest_dir: String,
    /// The package's structured metadata.
    pub metadata: JsonValue,
}

/// One node of the resolved dependency graph: a package identity and the
/// identities it directly depends on.
#[derive(Debug)]
pub struct DependencyNode {
    /// The package's identifier.
    pub id: String,
    /// The identifiers of the packages it directly depends on.
    pub dependencies: Vec<String>,
}

/// Details derived for one package: the package itself and whether it sits
/// in the consumer's dependency closure.
#[derive(Debug)]
pub struct PackageDetails {
    /// True when the package is in the consumer's dependency closure.
    pub is_dependency: bool,
    /// The package the details describe.
    pub package: PackageModel,
}

impl PackageDetails {
    /// Whether the package was marked as in scope.
    pub open spec fn spec_is_dependency(self) -> bool {
        self.is_dependency
    }

    /// Create an instance, initially assuming the package is not a
    /// dependency.
    pub fn new(package: PackageModel) -> (r: Self)
        ensures
            !r.spec_is_dependency(),
            r.package == package,
    {
        Self { is_dependency: false, package }
    }

    /// Mark the package as a dependency of the root node, inclusively.
    pub fn set_is_dependency(&mut self)
        ensures
            final(self).spec_is_dependency(),
            final(self).package == old(self).package,
    {
        self.is_dependency = true;
    }

    /// True when the package is a dependency of the root node, the root
    /// itself included.
    pub fn is_dependency(&self) -> (r: bool)
        ensures
            r == self.spec_is_dependency(),
    {
        self.is_dependency
    }
}

} // verus!
