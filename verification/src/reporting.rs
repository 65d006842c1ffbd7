//! Progress reporting: the events a run emits and the two standard ways of
//! rendering them.
//!
//! The library reports by value: each event renders to the exact line the
//! console reporter prints, or to a leveled line for a build-log reporter.
//! Printing itself is the caller's concern.
use vstd::prelude::*;
use vstd::string::*;

verus! {

/// One reportable happening of a run.
#[derive(Debug, Clone, PartialEq)]
pub enum ReportEvent {
    /// A resource was collected: it already existed, or was freshly copied.
    ResourceCollection { already_existed: bool, new_sha: String, output_path: String },
    /// No resources were found to collect.
    NoResourcesFound,
    /// A required resource has no declaration.
    MissingResource { resource_name: String },
    /// A later declaration replaced an earlier one of the same name.
    DuplicateResource { resolved_name: String, replaced: String, with_path: String },
    /// A declaration failed to parse in the named package.
    MalformedResourceDeclaration { package_name: String, error: String },
    /// The declarations section itself had the wrong shape.
    MalformedResourcesSection,
}

/// The severity a build-log reporter attaches to a line.
#[derive(Debug, Clone, Copy, PartialEq, Eq, Structural)]
pub enum BuildLogLevel {
    Info,
    Warn,
    Error,
}

/// The line reporting one collected resource.
pub open spec fn spec_collection_message(
    already_existed: bool,
    new_sha: Seq<char>,
    output_path: Seq<char>,
) -> Seq<char> {
    "Resource "@ + (if already_existed {
        "existed:"@
    } else {
        " copied:"@
    }) + " "@ + new_sha + " "@ + output_path
}

/// The line reporting a requirement nothing declares.
pub open spec fn spec_missing_message(resource_name: Seq<char>) -> Seq<char> {
    "No resource found matching requirement "@ + resource_name
}

/// The lines reporting a duplicate declaration.
pub open spec fn spec_duplicate_message(
    resolved_name: Seq<char>,
    replaced: Seq<char>,
    with_path: Seq<char>,
) -> Seq<char> {
    "WARNING: Duplicate resource "@ + resolved_name + "\nReplacing:\t\""@ + replaced
        + "\"\nWith:\t\t\""@ + with_path + "\"\n"@
}

/// The line reporting a declaration that failed to parse.
pub open spec fn spec_malformed_declaration_message(
    package_name: Seq<char>,
    error: Seq<char>,
) -> Seq<char> {
    "Malformed resource declaration in "@ + package_name + ": "@ + error
}

fn collection_message(already_existed: bool, new_sha: &str, output_path: &str) -> (r: String)
    ensures
        r@ == spec_collection_message(already_existed, new_sha@, output_path@),
{
    let mut r = "Resource ".to_owned();
    if already_existed {
        r.append("existed:");
    } else {
        r.append(" copied:");
    }
    r.append(" ");
    r.append(new_sha);
    r.append(" ");
    r.append(output_path);
    r
}

fn missing_message(resource_name: &str) -> (r: String)
    ensures
        r@ == spec_missing_message(resource_name@),
{
    let mut r = "No resource found matching requirement ".to_owned();
    r.append(resource_name);
    r
}

fn duplicate_message(resolved_name: &str, replaced: &str, with_path: &str) -> (r: String)
    ensures
        r@ == spec_duplicate_message(resolved_name@, replaced@, with_path@),
{
    let mut r = "WARNING: Duplicate resource ".to_owned();
    r.append(resolved_name);
    r.append("\nReplacing:\t\"");
    r.append(replaced);
    r.append("\"\nWith:\t\t\"");
    r.append(with_path);
    r.append("\"\n");
    r
}

fn malformed_declaration_message(package_name: &str, error: &str) -> (r: String)
    ensures
        r@ == spec_malformed_declaration_message(package_name@, error@),
{
    let mut r = "Malformed resource declaration in ".to_owned();
    r.append(package_name);
    r.append(": ");
    r.append(error);
    r
}

/// The console reporter: each hook renders the plain line the command-line
/// tool prints for that event.
pub struct DefaultReporter {}

impl DefaultReporter {
    /// The line for a collected resource.
    pub fn report_resource_collection(
        &self,
        already_existed: bool,
        new_sha: &str,
        output_path: &str,
    ) -> (r: String)
        ensures
            r@ == spec_collection_message(already_existed, new_sha@, output_path@),
    {
        collection_message(already_existed, new_sha, output_path)
    }

    /// The line for a run that found nothing to collect.
    pub fn report_no_resources_found(&self) -> (r: String)
        ensures
            r@ == "No resources were found - finishing early."@,
    {
        "No resources were found - finishing early.".to_owned()
    }

    /// The line for a requirement nothing declares.
    pub fn report_missing_resource(&self, resource_name: &str) -> (r: String)
        ensures
            r@ == spec_missing_message(resource_name@),
    {
        missing_message(resource_name)
    }

    /// The lines for a duplicate declaration: what was replaced with what.
    pub fn report_duplicate_resource(
        &self,
        resolved_name: &str,
        replaced: &str,
        with_path: &str,
    ) -> (r: String)
        ensures
            r@ == spec_duplicate_message(resolved_name@, replaced@, with_path@),
    {
        duplicate_message(resolved_name, replaced, with_path)
    }

    /// The line for a declaration that failed to parse.
    pub fn report_malformed_resource_declaration(&self, package_name: &str, error: &str) -> (r:
        String)
        ensures
            r@ == spec_malformed_declaration_message(package_name@, error@),
    {
        malformed_declaration_message(package_name, error)
    }

    /// The line for a declarations section of the wrong shape.
    pub fn report_malformed_resources_section(&self) -> (r: String)
        ensures
            r@ == "unexpected type for [package.metadata.cargo_resources].provides in the json-metadata"@,
    {
        "unexpected type for [package.metadata.cargo_resources].provides in the json-metadata".to_owned()
    }
}

/// The build-log reporter: each hook renders the same line together with
/// the severity a build script should log it at.
pub struct BuildRsReporter {}

impl BuildRsReporter {
    /// The leveled line for a collected resource: routine, so informational.
    pub fn report_resource_collection(
        &self,
        already_existed: bool,
        new_sha: &str,
        output_path: &str,
    ) -> (r: (BuildLogLevel, String))
        ensures
            r.0 == BuildLogLevel::Info,
            r.1@ == spec_collection_message(already_existed, new_sha@, output_path@),
    {
        (BuildLogLevel::Info, collection_message(already_existed, new_sha, output_path))
    }

    /// The leveled line for a run that found nothing to collect.
    pub fn report_no_resources_found(&self) -> (r: (BuildLogLevel, String))
        ensures
            r.0 == BuildLogLevel::Warn,
            r.1@ == "No resources were found - finishing early."@,
    {
        (BuildLogLevel::Warn, "No resources were found - finishing early.".to_owned())
    }

    /// The leveled line for a requirement nothing declares.
    pub fn report_missing_resource(&self, resource_name: &str) -> (r: (BuildLogLevel, String))
        ensures
            r.0 == BuildLogLevel::Error,
            r.1@ == spec_missing_message(resource_name@),
    {
        (BuildLogLevel::Error, missing_message(resource_name))
    }

    /// The leveled lines for a duplicate declaration.
    pub fn report_duplicate_resource(
        &self,
        resolved_name: &str,
        replaced: &str,
        with_path: &str,
    ) -> (r: (BuildLogLevel, String))
        ensures
            r.0 == BuildLogLevel::Warn,
            r.1@ == spec_duplicate_message(resolved_name@, replaced@, with_path@),
    {
        (BuildLogLevel::Warn, duplicate_message(resolved_name, replaced, with_path))
    }

    /// The leveled line for a declaration that failed to parse.
    pub fn report_malformed_resource_declaration(&self, package_name: &str, error: &str) -> (r: (
        BuildLogLevel,
        String,
    ))
        ensures
            r.0 == BuildLogLevel::Warn,
            r.1@ == spec_malformed_declaration_message(package_name@, error@),
    {
        (BuildLogLevel::Warn, malformed_declaration_message(package_name, error))
    }

    /// The leveled line for a declarations section of the wrong shape.
    pub fn report_malformed_resources_section(&self) -> (r: (BuildLogLevel, String))
        ensures
            r.0 == BuildLogLevel::Error,
            r.1@ == "Unexpected type for [package.metadata.cargo_resources].provides in the json-metadata"@,
    {
        (
            BuildLogLevel::Error,
            "Unexpected type for [package.metadata.cargo_resources].provides in the json-metadata".to_owned(),
        )
    }
}

} // verus!
