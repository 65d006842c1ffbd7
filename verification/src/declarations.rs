//! The declaration schema: what packages author in their metadata, and how
//! the library reads it out of a metadata document.
//!
//! A declaring package lists resources under its vendor section's
//! `provides` member; the consuming package names an optional resource
//! root and an optional `requires` list there. Optional fields read an
//! absent member and an explicit null alike as "not given"; any other
//! shape than the field's own is malformed and fails the run.
use vstd::prelude::*;

use crate::json::{spec_member, str_eq, JsonValue};
use crate::resource_encoding::ResourceEncoding;

verus! {

/// A resource declaration as authored in the declaring package's metadata.
#[derive(Debug, Clone, PartialEq)]
pub struct ResourceDataDeclaration {
    /// Whether the resource's file encoding is text or binary.
    pub encoding: Option<ResourceEncoding>,
    /// The path of the resource's file within the declaring package.
    pub crate_path: String,
    /// The path of the resource under the resource root.
    pub output_path: Option<String>,
    /// The unique name for the resource.
    pub resource_name: Option<String>,
}

/// The consuming package's section as authored in its metadata.
#[derive(Debug, Clone, PartialEq)]
pub struct ResourceConsumerDeclaration {
    /// The path of the resource root, relative to the consumer's manifest
    /// directory.
    pub resource_root: Option<String>,
    /// The list of required resources.
    pub requires: Option<Vec<ResourceRequirementDeclaration>>,
}

/// One resource requirement as authored by the consuming package.
#[derive(Debug, Clone, PartialEq)]
pub struct ResourceRequirementDeclaration {
    /// The unique name of the required resource.
    pub resource_name: String,
    /// The optional hex-encoded SHA-256 value the resource must have.
    pub required_sha: Option<String>,
}

/// An optional string field is well-shaped when it is absent, null, or a
/// string.
pub open spec fn spec_opt_str_field_ok(v: JsonValue, key: Seq<char>) -> bool {
    match spec_member(v, key) {
        None => true,
        Some(JsonValue::Null) => true,
        Some(JsonValue::Str(_)) => true,
        Some(_) => false,
    }
}

/// The value of an optional string field; absent and null read alike.
pub open spec fn spec_opt_str_field(v: JsonValue, key: Seq<char>) -> Option<Seq<char>> {
    match spec_member(v, key) {
        Some(JsonValue::Str(s)) => Some(s@),
        _ => None,
    }
}

/// An optional string carried in a struct matches the field it was read
/// from.
pub open spec fn spec_opt_string_matches(o: Option<String>, f: Option<Seq<char>>) -> bool {
    match (o, f) {
        (Option::None, Option::None) => true,
        (Option::Some(a), Option::Some(b)) => a@ == b,
        _ => false,
    }
}

/// The encoding field is well-shaped when it is absent, null, or one of
/// the two known tags.
pub open spec fn spec_encoding_field_ok(v: JsonValue) -> bool {
    match spec_member(v, "encoding"@) {
        None => true,
        Some(JsonValue::Null) => true,
        Some(JsonValue::Str(s)) => s@ == "Txt"@ || s@ == "Bin"@,
        Some(_) => false,
    }
}

/// The encoding a declaration names, when it names one.
pub open spec fn spec_encoding_field(v: JsonValue) -> Option<ResourceEncoding> {
    match spec_member(v, "encoding"@) {
        Some(JsonValue::Str(s)) => if s@ == "Txt"@ {
            Some(ResourceEncoding::Txt)
        } else if s@ == "Bin"@ {
            Some(ResourceEncoding::Bin)
        } else {
            None
        },
        _ => None,
    }
}

/// A resource declaration entry parses when it is an object whose
/// `crate_path` is a string and whose optional fields, where present, have
/// their own shapes.
pub open spec fn spec_data_declaration_ok(v: JsonValue) -> bool {
    &&& v is Object
    &&& spec_member(v, "crate_path"@) matches Some(JsonValue::Str(_))
    &&& spec_opt_str_field_ok(v, "output_path"@)
    &&& spec_opt_str_field_ok(v, "resource_name"@)
    &&& spec_encoding_field_ok(v)
}

/// The declared source path of a well-shaped entry.
pub open spec fn spec_crate_path_field(v: JsonValue) -> Seq<char> {
    match spec_member(v, "crate_path"@) {
        Some(JsonValue::Str(s)) => s@,
        _ => Seq::<char>::empty(),
    }
}

/// What a parsed declaration carries, field for field.
pub open spec fn spec_declared(v: JsonValue, d: ResourceDataDeclaration) -> bool {
    &&& d.encoding == spec_encoding_field(v)
    &&& d.crate_path@ == spec_crate_path_field(v)
    &&& spec_opt_string_matches(d.output_path, spec_opt_str_field(v, "output_path"@))
    &&& spec_opt_string_matches(d.resource_name, spec_opt_str_field(v, "resource_name"@))
}

/// The message a declaration entry fails with, naming the field at fault;
/// fields are checked in the order encoding, source path, output path,
/// resource name.
pub open spec fn spec_data_declaration_error(v: JsonValue) -> Seq<char> {
    if !(v is Object) {
        "declaration entry is not an object"@
    } else if !spec_encoding_field_ok(v) {
        match spec_member(v, "encoding"@) {
            Some(JsonValue::Str(_)) => "unknown variant for field encoding"@,
            _ => "invalid type for field encoding"@,
        }
    } else if !(spec_member(v, "crate_path"@) matches Some(JsonValue::Str(_))) {
        "missing or invalid field crate_path"@
    } else if !spec_opt_str_field_ok(v, "output_path"@) {
        "invalid type for field output_path"@
    } else {
        "invalid type for field resource_name"@
    }
}

/// Parse one resource declaration entry out of a metadata value. The error
/// text names the field at fault.
pub fn parse_data_declaration(v: &JsonValue) -> (r: Result<ResourceDataDeclaration, String>)
    ensures
        r is Ok <==> spec_data_declaration_ok(*v),
        r matches Ok(d) ==> spec_declared(*v, d),
        r matches Err(m) ==> m@ == spec_data_declaration_error(*v),
{
    if !v.is_object() {
        return Err("declaration entry is not an object".to_owned());
    }
    let encoding: Option<ResourceEncoding> = match v.member("encoding") {
        None => None,
        Some(JsonValue::Null) => None,
        Some(JsonValue::Str(s)) => {
            if str_eq(s.as_str(), "Txt") {
                Some(ResourceEncoding::Txt)
            } else if str_eq(s.as_str(), "Bin") {
                Some(ResourceEncoding::Bin)
            } else {
                return Err("unknown variant for field encoding".to_owned());
            }
        },
        Some(_) => {
            return Err("invalid type for field encoding".to_owned());
        },
    };
    let crate_path: String = match v.member("crate_path") {
        Some(JsonValue::Str(s)) => s.clone(),
        _ => {
            return Err("missing or invalid field crate_path".to_owned());
        },
    };
    let output_path: Option<String> = match v.member("output_path") {
        None => None,
        Some(JsonValue::Null) => None,
        Some(JsonValue::Str(s)) => Some(s.clone()),
        Some(_) => {
            return Err("invalid type for field output_path".to_owned());
        },
    };
    let resource_name: Option<String> = match v.member("resource_name") {
        None => None,
        Some(JsonValue::Null) => None,
        Some(JsonValue::Str(s)) => Some(s.clone()),
        Some(_) => {
            return Err("invalid type for field resource_name".to_owned());
        },
    };
    Ok(ResourceDataDeclaration { encoding, crate_path, output_path, resource_name })
}

/// One requirement entry parses when it is an object whose `resource_name`
/// is a string and whose optional `required_sha`, where present, is one.
pub open spec fn spec_requirement_declaration_ok(v: JsonValue) -> bool {
    &&& v is Object
    &&& spec_member(v, "resource_name"@) matches Some(JsonValue::Str(_))
    &&& spec_opt_str_field_ok(v, "required_sha"@)
}

/// The declared name of a well-shaped requirement entry.
pub open spec fn spec_requirement_name_field(v: JsonValue) -> Seq<char> {
    match spec_member(v, "resource_name"@) {
        Some(JsonValue::Str(s)) => s@,
        _ => Seq::<char>::empty(),
    }
}

/// What a parsed requirement carries, field for field.
pub open spec fn spec_requirement_declared(v: JsonValue, d: ResourceRequirementDeclaration) -> bool {
    &&& d.resource_name@ == spec_requirement_name_field(v)
    &&& spec_opt_string_matches(d.required_sha, spec_opt_str_field(v, "required_sha"@))
}

/// The message a requirement entry fails with, naming the field at fault.
pub open spec fn spec_requirement_declaration_error(v: JsonValue) -> Seq<char> {
    if !(v is Object) {
        "requirement entry is not an object"@
    } else if !(spec_member(v, "resource_name"@) matches Some(JsonValue::Str(_))) {
        "missing or invalid field resource_name"@
    } else {
        "invalid type for field required_sha"@
    }
}

/// Parse one requirement entry out of a metadata value.
pub fn parse_requirement_declaration(v: &JsonValue) -> (r: Result<
    ResourceRequirementDeclaration,
    String,
>)
    ensures
        r is Ok <==> spec_requirement_declaration_ok(*v),
        r matches Ok(d) ==> spec_requirement_declared(*v, d),
        r matches Err(m) ==> m@ == spec_requirement_declaration_error(*v),
{
    if !v.is_object() {
        return Err("requirement entry is not an object".to_owned());
    }
    let resource_name: String = match v.member("resource_name") {
        Some(JsonValue::Str(s)) => s.clone(),
        _ => {
            return Err("missing or invalid field resource_name".to_owned());
        },
    };
    let required_sha: Option<String> = match v.member("required_sha") {
        None => None,
        Some(JsonValue::Null) => None,
        Some(JsonValue::Str(s)) => Some(s.clone()),
        Some(_) => {
            return Err("invalid type for field required_sha".to_owned());
        },
    };
    Ok(ResourceRequirementDeclaration { resource_name, required_sha })
}

/// Every entry of a `requires` list is well-shaped.
pub open spec fn spec_requires_entries_ok(items: Seq<JsonValue>) -> bool {
    forall|i: int| 0 <= i < items.len() ==> spec_requirement_declaration_ok(#[trigger] items[i])
}

/// A parsed `requires` list carries the entries it was read from, one for
/// one and in order.
pub open spec fn spec_requirements_declared(
    items: Seq<JsonValue>,
    reqs: Seq<ResourceRequirementDeclaration>,
) -> bool {
    &&& reqs.len() == items.len()
    &&& forall|i: int|
        0 <= i < items.len() ==> spec_requirement_declared(items[i], #[trigger] reqs[i])
}

/// The consumer section parses when it is an object whose optional
/// `resource_root` is a string and whose optional `requires` is a list of
/// well-shaped requirement entries.
pub open spec fn spec_consumer_declaration_ok(v: JsonValue) -> bool {
    &&& v is Object
    &&& spec_opt_str_field_ok(v, "resource_root"@)
    &&& match spec_member(v, "requires"@) {
        None => true,
        Some(JsonValue::Null) => true,
        Some(JsonValue::Array(items)) => spec_requires_entries_ok(items@),
        Some(_) => false,
    }
}

/// The requirement entries of the consumer section, when it lists any.
pub open spec fn spec_requires_items(v: JsonValue) -> Option<Seq<JsonValue>> {
    match spec_member(v, "requires"@) {
        Some(JsonValue::Array(items)) => Some(items@),
        _ => None,
    }
}

/// What a parsed consumer section carries.
pub open spec fn spec_consumer_declared(v: JsonValue, d: ResourceConsumerDeclaration) -> bool {
    &&& spec_opt_string_matches(d.resource_root, spec_opt_str_field(v, "resource_root"@))
    &&& match (d.requires, spec_requires_items(v)) {
        (Option::None, Option::None) => true,
        (Option::Some(reqs), Option::Some(items)) => spec_requirements_declared(items, reqs@),
        _ => false,
    }
}

/// The least index whose requirement entry is ill-shaped, or the list's
/// length when all are acceptable.
pub open spec fn spec_first_bad_requirement(items: Seq<JsonValue>) -> int
    decreases items.len(),
{
    if items.len() == 0 {
        0
    } else if !spec_requirement_declaration_ok(items[0]) {
        0
    } else {
        1 + spec_first_bad_requirement(items.drop_first())
    }
}

/// Nothing before a failing entry fails, and it fails itself: that entry
/// is the first bad one.
pub proof fn lemma_first_bad_requirement(items: Seq<JsonValue>, i: int)
    requires
        0 <= i < items.len(),
        !spec_requirement_declaration_ok(items[i]),
        forall|j: int| 0 <= j < i ==> spec_requirement_declaration_ok(#[trigger] items[j]),
    ensures
        spec_first_bad_requirement(items) == i,
    decreases i,
{
    if i > 0 {
        lemma_first_bad_requirement(items.drop_first(), i - 1);
    }
}

/// The message the consumer section fails with: its own shape first, then
/// the resource root, then the first ill-shaped requirement entry.
pub open spec fn spec_consumer_declaration_error(v: JsonValue) -> Seq<char> {
    if !(v is Object) {
        "consumer section is not an object"@
    } else if !spec_opt_str_field_ok(v, "resource_root"@) {
        "invalid type for field resource_root"@
    } else {
        match spec_member(v, "requires"@) {
            Some(JsonValue::Array(items)) => spec_requirement_declaration_error(
                items@[spec_first_bad_requirement(items@)],
            ),
            _ => "invalid type for field requires"@,
        }
    }
}

/// Parse the consuming package's section out of a metadata value.
pub fn parse_consumer_declaration(v: &JsonValue) -> (r: Result<
    ResourceConsumerDeclaration,
    String,
>)
    ensures
        r is Ok <==> spec_consumer_declaration_ok(*v),
        r matches Ok(d) ==> spec_consumer_declared(*v, d),
        r matches Err(m) ==> m@ == spec_consumer_declaration_error(*v),
{
    if !v.is_object() {
        return Err("consumer section is not an object".to_owned());
    }
    let resource_root: Option<String> = match v.member("resource_root") {
        None => None,
        Some(JsonValue::Null) => None,
        Some(JsonValue::Str(s)) => Some(s.clone()),
        Some(_) => {
            return Err("invalid type for field resource_root".to_owned());
        },
    };
    let requires: Option<Vec<ResourceRequirementDeclaration>> = match v.member("requires") {
        None => None,
        Some(JsonValue::Null) => None,
        Some(JsonValue::Array(items)) => {
            let n = items.len();
            let mut reqs: Vec<ResourceRequirementDeclaration> = Vec::new();
            let mut i: usize = 0;
            while i < n
                invariant
                    i <= n,
                    n == items@.len(),
                    reqs@.len() == i,
                    spec_member(*v, "requires"@) == Some(JsonValue::Array(*items)),
                    forall|j: int|
                        0 <= j < i ==> spec_requirement_declaration_ok(#[trigger] items@[j]),
                    forall|j: int|
                        0 <= j < i ==> spec_requirement_declared(items@[j], #[trigger] reqs@[j]),
                    spec_opt_string_matches(
                        resource_root,
                        spec_opt_str_field(*v, "resource_root"@),
                    ),
                    *v is Object,
                    spec_opt_str_field_ok(*v, "resource_root"@),
                decreases n - i,
            {
                match parse_requirement_declaration(&items[i]) {
                    Ok(d) => {
                        reqs.push(d);
                    },
                    Err(e) => {
                        proof {
                            assert(!spec_requirement_declaration_ok(items@[i as int]));
                            assert(!spec_requires_entries_ok(items@));
                            lemma_first_bad_requirement(items@, i as int);
                        }
                        return Err(e);
                    },
                }
                i = i + 1;
            }
            proof {
                assert(spec_requires_entries_ok(items@));
                assert(spec_requirements_declared(items@, reqs@));
            }
            Some(reqs)
        },
        Some(_) => {
            return Err("invalid type for field requires".to_owned());
        },
    };
    Ok(ResourceConsumerDeclaration { resource_root, requires })
}

} // verus!
