//! The requirement resolver: what the consuming package asks for, and
//! where the resources go.
use vstd::prelude::*;
use vstd::string::*;

use crate::declarations::{
    parse_consumer_declaration, spec_consumer_declaration_error, spec_consumer_declaration_ok,
    spec_opt_str_field, spec_requirement_name_field, spec_requires_items,
    ResourceConsumerDeclaration,
};
use crate::errors::CollationError;
use crate::json::{spec_member, JsonValue};
use crate::registry::Registry;
use crate::specifications::{
    PackageModel, ResourceConsumerSpecification, ResourceRequirement,
};

verus! {

/// The consuming package's vendor section, whatever its shape.
pub open spec fn spec_consumer_section(p: PackageModel) -> Option<JsonValue> {
    spec_member(p.metadata, "cargo_resources"@)
}

/// The consumer's section is acceptable: absent, null, or a well-formed
/// object.
pub open spec fn spec_consumer_ok(p: PackageModel) -> bool {
    match spec_consumer_section(p) {
        None => true,
        Some(JsonValue::Null) => true,
        Some(s) => s is Object && spec_consumer_declaration_ok(s),
    }
}

/// The resource root the consumer resolved: the declared one, else the
/// default, always relative to the consumer's manifest directory.
pub open spec fn spec_resolved_root(p: PackageModel) -> Seq<char> {
    match spec_consumer_section(p) {
        Some(s) => match spec_opt_str_field(s, "resource_root"@) {
            Some(r) => r,
            None => "target/resources"@,
        },
        None => "target/resources"@,
    }
}

/// The consumer's explicit `requires` entries, when it lists any.
pub open spec fn spec_explicit_requires(p: PackageModel) -> Option<Seq<JsonValue>> {
    match spec_consumer_section(p) {
        Some(s) => spec_requires_items(s),
        None => None,
    }
}

/// What one explicit requirement resolves to, verbatim.
pub open spec fn spec_requirement_resolved(v: JsonValue, r: ResourceRequirement) -> bool {
    &&& r.resource_name@ == spec_requirement_name_field(v)
    &&& match (r.required_sha, spec_opt_str_field(v, "required_sha"@)) {
        (Option::None, Option::None) => true,
        (Option::Some(a), Option::Some(b)) => a@ == b,
        _ => false,
    }
}

/// The explicit requirements resolve verbatim, one for one and in order.
pub open spec fn spec_requirements_resolved(
    items: Seq<JsonValue>,
    reqs: Seq<ResourceRequirement>,
) -> bool {
    &&& reqs.len() == items.len()
    &&& forall|i: int|
        0 <= i < items.len() ==> spec_requirement_resolved(items[i], #[trigger] reqs[i])
}

/// Without an explicit list, one unpinned requirement stands per
/// registered resource, in registration order.
pub open spec fn spec_requirements_synthesized(
    entries: Seq<crate::specifications::ResourceSpecification>,
    reqs: Seq<ResourceRequirement>,
) -> bool {
    &&& reqs.len() == entries.len()
    &&& forall|i: int|
        0 <= i < entries.len() ==> (#[trigger] reqs[i]).resource_name@
            == entries[i].resource_name@ && reqs[i].required_sha is None
}

/// Read the consuming package's section and resolve the resource root and
/// the requirement list. An absent or null section means defaults: the
/// default root, and every registered resource required unpinned. An
/// explicit list is taken verbatim, pinned hashes included. Any other
/// shape of the section is a fatal misconfiguration.
pub fn get_resource_requirement(
    package: &PackageModel,
    available_resources: &Registry,
) -> (r: Result<ResourceConsumerSpecification, CollationError>)
    ensures
        r is Ok <==> spec_consumer_ok(*package),
        r matches Ok(consumer) ==> {
            &&& consumer.resource_root@ == spec_resolved_root(*package)
            &&& match spec_explicit_requires(*package) {
                Some(items) => spec_requirements_resolved(items, consumer.required_resources@),
                None => spec_requirements_synthesized(
                    available_resources.entries(),
                    consumer.required_resources@,
                ),
            }
        },
        r matches Err(e) ==> e is DeclarationError && (match spec_consumer_section(*package) {
            Some(s) => if s is Null {
                true
            } else if !(s is Object) {
                e.spec_message()
                    == "Misconfigured [package.metadata.cargo_resources] in consuming package."@
            } else {
                e.spec_message()
                    == "Unable to read consuming crates [package.metadata.cargo_resources]: "@
                    + spec_consumer_declaration_error(s)
            },
            None => true,
        }),
{
    let consumer_declaration: ResourceConsumerDeclaration = match package.metadata.member(
        "cargo_resources",
    ) {
        None => ResourceConsumerDeclaration { resource_root: None, requires: None },
        Some(JsonValue::Null) => ResourceConsumerDeclaration {
            resource_root: None,
            requires: None,
        },
        Some(s) => {
            if s.is_object() {
                match parse_consumer_declaration(s) {
                    Ok(d) => d,
                    Err(e) => {
                        let mut m =
                            "Unable to read consuming crates [package.metadata.cargo_resources]: ".to_owned();
                        m.append(e.as_str());
                        proof {
                            assert(m@
                                == "Unable to read consuming crates [package.metadata.cargo_resources]: "@
                                + spec_consumer_declaration_error(*s));
                        }
                        return Err(CollationError::DeclarationError(m));
                    },
                }
            } else {
                return Err(
                    CollationError::DeclarationError(
                        "Misconfigured [package.metadata.cargo_resources] in consuming package.".to_owned(),
                    ),
                );
            }
        },
    };
    let resource_root: String = match consumer_declaration.resource_root {
        Some(root) => root,
        None => "target/resources".to_owned(),
    };
    let required_resources: Vec<ResourceRequirement> = match consumer_declaration.requires {
        None => {
            let n = available_resources.len();
            let mut reqs: Vec<ResourceRequirement> = Vec::new();
            let mut i: usize = 0;
            while i < n
                invariant
                    i <= n,
                    n == available_resources.entries().len(),
                    reqs@.len() == i,
                    forall|j: int|
                        0 <= j < i ==> (#[trigger] reqs@[j]).resource_name@
                            == available_resources.entries()[j].resource_name@
                            && reqs@[j].required_sha is None,
                decreases n - i,
            {
                reqs.push(
                    ResourceRequirement {
                        resource_name: available_resources.entry_at(i).resource_name.clone(),
                        required_sha: None,
                    },
                );
                i = i + 1;
            }
            reqs
        },
        Some(declarations) => {
            let ghost decls0 = declarations@;
            let ghost items = spec_explicit_requires(*package)->Some_0;
            let mut remaining = declarations;
            let mut reqs: Vec<ResourceRequirement> = Vec::new();
            while remaining.len() > 0
                invariant
                    reqs@.len() + remaining@.len() == decls0.len(),
                    spec_explicit_requires(*package) == Some(items),
                    items.len() == decls0.len(),
                    forall|j: int|
                        0 <= j < remaining@.len() ==> #[trigger] remaining@[j] == decls0[reqs@.len()
                            + j],
                    forall|j: int|
                        0 <= j < decls0.len()
                            ==> crate::declarations::spec_requirement_declared(
                            items[j],
                            #[trigger] decls0[j],
                        ),
                    forall|j: int|
                        0 <= j < reqs@.len() ==> spec_requirement_resolved(
                            items[j],
                            #[trigger] reqs@[j],
                        ),
                decreases remaining@.len(),
            {
                let d = remaining.remove(0);
                reqs.push(
                    ResourceRequirement {
                        resource_name: d.resource_name,
                        required_sha: d.required_sha,
                    },
                );
            }
            reqs
        },
    };
    Ok(ResourceConsumerSpecification { resource_root, required_resources })
}

} // verus!
