//! The declaration registry: the shared name→specification mapping built
//! from the in-scope packages, later declarations overwriting earlier ones
//! with a duplicate notification.
use vstd::prelude::*;
use vstd::string::*;

use crate::declarations::{
    parse_data_declaration, spec_crate_path_field, spec_data_declaration_error,
    spec_data_declaration_ok, spec_encoding_field, spec_opt_str_field,
};
use crate::errors::CollationError;
use crate::json::{spec_member, str_eq, JsonValue};
use crate::paths::{
    file_name_of, is_absolute_path, join_paths, path_is_absolute, spec_file_name, spec_join_paths,
};
use crate::reporting::spec_malformed_declaration_message;
use crate::reporting::ReportEvent;
use crate::resource_encoding::ResourceEncoding;
use crate::specifications::{PackageDetails, PackageModel, ResourceSpecification};

verus! {

/// The first index whose entry bears the name, or -1 when none does.
pub open spec fn spec_index_of(entries: Seq<ResourceSpecification>, name: Seq<char>) -> int
    decreases entries.len(),
{
    if entries.len() == 0 {
        -1
    } else if entries[0].resource_name@ == name {
        0
    } else {
        let r = spec_index_of(entries.drop_first(), name);
        if r == -1 {
            -1
        } else {
            r + 1
        }
    }
}

/// The entry registered under the name, if any.
pub open spec fn spec_lookup(entries: Seq<ResourceSpecification>, name: Seq<char>) -> Option<
    ResourceSpecification,
> {
    let i = spec_index_of(entries, name);
    if i == -1 {
        None
    } else {
        Some(entries[i])
    }
}

pub proof fn lemma_index_of_properties(entries: Seq<ResourceSpecification>, name: Seq<char>)
    ensures
        spec_index_of(entries, name) == -1 ==> forall|i: int|
            0 <= i < entries.len() ==> (#[trigger] entries[i]).resource_name@ != name,
        spec_index_of(entries, name) != -1 ==> {
            &&& 0 <= spec_index_of(entries, name) < entries.len()
            &&& entries[spec_index_of(entries, name)].resource_name@ == name
            &&& forall|i: int|
                0 <= i < spec_index_of(entries, name) ==> (
                #[trigger] entries[i]).resource_name@ != name
        },
    decreases entries.len(),
{
    if entries.len() > 0 && entries[0].resource_name@ != name {
        lemma_index_of_properties(entries.drop_first(), name);
        assert forall|i: int| 1 <= i < entries.len() implies entries.drop_first()[i - 1]
            == entries[i] by {}
    }
}

/// The first index bears the name and nothing before it does: that index
/// is the one the search finds.
pub proof fn lemma_index_of_first(entries: Seq<ResourceSpecification>, name: Seq<char>, i: int)
    requires
        0 <= i < entries.len(),
        entries[i].resource_name@ == name,
        forall|j: int| 0 <= j < i ==> (#[trigger] entries[j]).resource_name@ != name,
    ensures
        spec_index_of(entries, name) == i,
    decreases i,
{
    if i > 0 {
        lemma_index_of_first(entries.drop_first(), name, i - 1);
    }
}

/// No entry bears the name: the search finds nothing.
pub proof fn lemma_index_of_none(entries: Seq<ResourceSpecification>, name: Seq<char>)
    requires
        forall|j: int| 0 <= j < entries.len() ==> (#[trigger] entries[j]).resource_name@ != name,
    ensures
        spec_index_of(entries, name) == -1,
    decreases entries.len(),
{
    if entries.len() > 0 {
        lemma_index_of_none(entries.drop_first(), name);
    }
}

/// The shared name→specification mapping. Names are unique; inserting an
/// already-registered name overwrites its entry in place.
#[derive(Debug)]
pub struct Registry {
    entries: Vec<ResourceSpecification>,
}

impl Registry {
    /// The registered entries, in first-registration order of their names.
    pub closed spec fn entries(self) -> Seq<ResourceSpecification> {
        self.entries@
    }

    /// Registered names are unique.
    pub open spec fn wf(self) -> bool {
        forall|i: int, j: int|
            0 <= i < j < self.entries().len() ==> (#[trigger] self.entries()[i]).resource_name@
                != (#[trigger] self.entries()[j]).resource_name@
    }

    /// The entry registered under a name, if any.
    pub open spec fn lookup(self, name: Seq<char>) -> Option<ResourceSpecification> {
        spec_lookup(self.entries(), name)
    }

    /// An empty registry.
    pub fn new() -> (r: Registry)
        ensures
            r.entries() == Seq::<ResourceSpecification>::empty(),
            r.wf(),
    {
        Registry { entries: Vec::new() }
    }

    /// How many names are registered.
    pub fn len(&self) -> (r: usize)
        ensures
            r == self.entries().len(),
    {
        self.entries.len()
    }

    /// Borrow the entry at an index, in registration order.
    pub fn entry_at(&self, i: usize) -> (r: &ResourceSpecification)
        requires
            i < self.entries().len(),
        ensures
            *r == self.entries()[i as int],
    {
        &self.entries[i]
    }

    fn find_index(&self, name: &str) -> (r: Option<usize>)
        ensures
            match r {
                Some(i) => i < self.entries().len() && spec_index_of(self.entries(), name@)
                    == i as int,
                None => spec_index_of(self.entries(), name@) == -1,
            },
    {
        let n = self.entries.len();
        let mut i: usize = 0;
        while i < n
            invariant
                i <= n,
                n == self.entries().len(),
                forall|j: int|
                    0 <= j < i ==> (#[trigger] self.entries()[j]).resource_name@ != name@,
            decreases n - i,
        {
            if str_eq(self.entries[i].resource_name.as_str(), name) {
                proof {
                    lemma_index_of_first(self.entries(), name@, i as int);
                }
                return Some(i);
            }
            i = i + 1;
        }
        proof {
            lemma_index_of_none(self.entries(), name@);
        }
        None
    }

    /// Borrow the entry registered under a name.
    pub fn get(&self, name: &str) -> (r: Option<&ResourceSpecification>)
        ensures
            match r {
                Some(s) => self.lookup(name@) == Some(*s),
                None => self.lookup(name@) == None::<ResourceSpecification>,
            },
    {
        match self.find_index(name) {
            Some(i) => Some(&self.entries[i]),
            None => None,
        }
    }

    /// Register an entry under its name. A name seen before has its entry
    /// replaced in place and handed back, so the caller can report the
    /// duplicate; a new name extends the registry.
    pub fn insert(&mut self, entry: ResourceSpecification) -> (replaced: Option<
        ResourceSpecification,
    >)
        requires
            old(self).wf(),
        ensures
            final(self).wf(),
            replaced == old(self).lookup(entry.resource_name@),
            final(self).entries() == spec_register(old(self).entries(), entry),
    {
        let ghost entries0 = self.entries();
        match self.find_index(entry.resource_name.as_str()) {
            Some(i) => {
                proof {
                    lemma_index_of_properties(entries0, entry.resource_name@);
                }
                let prev = self.entries.remove(i);
                self.entries.insert(i, entry);
                proof {
                    assert(self.entries() =~= entries0.update(
                        i as int,
                        self.entries()[i as int],
                    ));
                }
                Some(prev)
            },
            None => {
                proof {
                    lemma_index_of_properties(entries0, entry.resource_name@);
                }
                self.entries.push(entry);
                None
            },
        }
    }
}

/// Registering an entry: it replaces the entry of its name, or extends the
/// list when its name is new.
pub open spec fn spec_register(
    entries: Seq<ResourceSpecification>,
    entry: ResourceSpecification,
) -> Seq<ResourceSpecification> {
    let i = spec_index_of(entries, entry.resource_name@);
    if i == -1 {
        entries.push(entry)
    } else {
        entries.update(i, entry)
    }
}

/// Registering a list of entries, in order.
pub open spec fn spec_register_all(
    entries: Seq<ResourceSpecification>,
    new_entries: Seq<ResourceSpecification>,
) -> Seq<ResourceSpecification>
    decreases new_entries.len(),
{
    if new_entries.len() == 0 {
        entries
    } else {
        spec_register_all(spec_register(entries, new_entries[0]), new_entries.drop_first())
    }
}

/// The duplicate notifications that registering a list of entries emits,
/// in order: one triple (name, replaced path, new path) for each entry
/// whose name was already registered at its turn.
pub open spec fn spec_duplicate_triples(
    entries: Seq<ResourceSpecification>,
    new_entries: Seq<ResourceSpecification>,
) -> Seq<(Seq<char>, Seq<char>, Seq<char>)>
    decreases new_entries.len(),
{
    if new_entries.len() == 0 {
        Seq::empty()
    } else {
        let head = new_entries[0];
        let rest = spec_duplicate_triples(
            spec_register(entries, head),
            new_entries.drop_first(),
        );
        match spec_lookup(entries, head.resource_name@) {
            Some(prev) => seq![
                (head.resource_name@, prev.full_crate_path@, head.full_crate_path@),
            ] + rest,
            None => rest,
        }
    }
}

pub proof fn lemma_register_all_snoc(
    entries: Seq<ResourceSpecification>,
    new_entries: Seq<ResourceSpecification>,
    entry: ResourceSpecification,
)
    ensures
        spec_register_all(entries, new_entries.push(entry)) == spec_register(
            spec_register_all(entries, new_entries),
            entry,
        ),
    decreases new_entries.len(),
{
    let p = new_entries.push(entry);
    if new_entries.len() == 0 {
        assert(p[0] == entry);
        assert(p.drop_first() =~= Seq::<ResourceSpecification>::empty());
        assert(spec_register_all(entries, p) == spec_register_all(
            spec_register(entries, entry),
            p.drop_first(),
        ));
        assert(spec_register_all(spec_register(entries, entry), p.drop_first()) == spec_register(
            entries,
            entry,
        ));
    } else {
        assert(p[0] == new_entries[0]);
        assert(p.drop_first() =~= new_entries.drop_first().push(entry));
        assert(spec_register_all(entries, p) == spec_register_all(
            spec_register(entries, new_entries[0]),
            new_entries.drop_first().push(entry),
        ));
        lemma_register_all_snoc(
            spec_register(entries, new_entries[0]),
            new_entries.drop_first(),
            entry,
        );
        assert(spec_register_all(entries, new_entries) == spec_register_all(
            spec_register(entries, new_entries[0]),
            new_entries.drop_first(),
        ));
    }
}

pub proof fn lemma_duplicate_triples_snoc(
    entries: Seq<ResourceSpecification>,
    new_entries: Seq<ResourceSpecification>,
    entry: ResourceSpecification,
)
    ensures
        spec_duplicate_triples(entries, new_entries.push(entry)) == spec_duplicate_triples(
            entries,
            new_entries,
        ) + (match spec_lookup(spec_register_all(entries, new_entries), entry.resource_name@) {
            Some(prev) => seq![
                (entry.resource_name@, prev.full_crate_path@, entry.full_crate_path@),
            ],
            None => Seq::<(Seq<char>, Seq<char>, Seq<char>)>::empty(),
        }),
    decreases new_entries.len(),
{
    let p = new_entries.push(entry);
    if new_entries.len() == 0 {
        assert(p[0] == entry);
        assert(p.drop_first() =~= Seq::<ResourceSpecification>::empty());
        assert(spec_duplicate_triples(entries, p) == (match spec_lookup(
            entries,
            entry.resource_name@,
        ) {
            Some(prev) => seq![
                (entry.resource_name@, prev.full_crate_path@, entry.full_crate_path@),
            ] + spec_duplicate_triples(spec_register(entries, entry), p.drop_first()),
            None => spec_duplicate_triples(spec_register(entries, entry), p.drop_first()),
        }));
        assert(spec_duplicate_triples(spec_register(entries, entry), p.drop_first())
            =~= Seq::<(Seq<char>, Seq<char>, Seq<char>)>::empty());
        assert(spec_duplicate_triples(entries, new_entries)
            =~= Seq::<(Seq<char>, Seq<char>, Seq<char>)>::empty());
        assert(spec_register_all(entries, new_entries) == entries);
        assert(spec_duplicate_triples(entries, p) =~= spec_duplicate_triples(entries, new_entries)
            + (match spec_lookup(spec_register_all(entries, new_entries), entry.resource_name@) {
            Some(prev) => seq![
                (entry.resource_name@, prev.full_crate_path@, entry.full_crate_path@),
            ],
            None => Seq::<(Seq<char>, Seq<char>, Seq<char>)>::empty(),
        }));
    } else {
        assert(p[0] == new_entries[0]);
        assert(p.drop_first() =~= new_entries.drop_first().push(entry));
        lemma_duplicate_triples_snoc(
            spec_register(entries, new_entries[0]),
            new_entries.drop_first(),
            entry,
        );
        lemma_register_all_snoc(entries, new_entries, entry);
        assert(spec_register_all(entries, new_entries) == spec_register_all(
            spec_register(entries, new_entries[0]),
            new_entries.drop_first(),
        ));
        assert(spec_duplicate_triples(entries, p) == (match spec_lookup(
            entries,
            new_entries[0].resource_name@,
        ) {
            Some(prev) => seq![
                (new_entries[0].resource_name@, prev.full_crate_path@, new_entries[0].full_crate_path@),
            ] + spec_duplicate_triples(
                spec_register(entries, new_entries[0]),
                new_entries.drop_first().push(entry),
            ),
            None => spec_duplicate_triples(
                spec_register(entries, new_entries[0]),
                new_entries.drop_first().push(entry),
            ),
        }));
        assert(spec_duplicate_triples(entries, new_entries) == (match spec_lookup(
            entries,
            new_entries[0].resource_name@,
        ) {
            Some(prev) => seq![
                (new_entries[0].resource_name@, prev.full_crate_path@, new_entries[0].full_crate_path@),
            ] + spec_duplicate_triples(
                spec_register(entries, new_entries[0]),
                new_entries.drop_first(),
            ),
            None => spec_duplicate_triples(
                spec_register(entries, new_entries[0]),
                new_entries.drop_first(),
            ),
        }));
        assert(spec_duplicate_triples(entries, p) =~= spec_duplicate_triples(entries, new_entries)
            + (match spec_lookup(spec_register_all(entries, new_entries), entry.resource_name@) {
            Some(prev) => seq![
                (entry.resource_name@, prev.full_crate_path@, entry.full_crate_path@),
            ],
            None => Seq::<(Seq<char>, Seq<char>, Seq<char>)>::empty(),
        }));
    }
}

/// Whatever a registered list holds came from the prior entries or from
/// the list itself.
pub proof fn lemma_register_all_provenance(
    entries: Seq<ResourceSpecification>,
    new_entries: Seq<ResourceSpecification>,
)
    ensures
        forall|s: ResourceSpecification|
            #[trigger] spec_register_all(entries, new_entries).contains(s) ==> entries.contains(s)
                || new_entries.contains(s),
    decreases new_entries.len(),
{
    if new_entries.len() > 0 {
        lemma_register_all_provenance(spec_register(entries, new_entries[0]), new_entries.drop_first());
        assert forall|s: ResourceSpecification|
            #[trigger] spec_register(entries, new_entries[0]).contains(s) implies entries.contains(
            s,
        ) || s == new_entries[0] by {
            lemma_index_of_properties(entries, new_entries[0].resource_name@);
            let reg = spec_register(entries, new_entries[0]);
            let k = choose|k: int| 0 <= k < reg.len() && reg[k] == s;
            if spec_index_of(entries, new_entries[0].resource_name@) == -1 {
                if k < entries.len() {
                    assert(entries[k] == s);
                } else {
                    assert(s == new_entries[0]);
                }
            } else {
                if k == spec_index_of(entries, new_entries[0].resource_name@) {
                    assert(s == new_entries[0]);
                } else {
                    assert(entries[k] == s);
                }
            }
        }
        assert forall|s: ResourceSpecification|
            #[trigger] spec_register_all(entries, new_entries).contains(s) implies entries.contains(
            s,
        ) || new_entries.contains(s) by {
            assert(spec_register_all(entries, new_entries) == spec_register_all(
                spec_register(entries, new_entries[0]),
                new_entries.drop_first(),
            ));
            assert(spec_register_all(
                spec_register(entries, new_entries[0]),
                new_entries.drop_first(),
            ).contains(s));
            if new_entries.drop_first().contains(s) {
                let k = choose|k: int|
                    0 <= k < new_entries.drop_first().len() && new_entries.drop_first()[k] == s;
                assert(new_entries[k + 1] == s);
                assert(new_entries.contains(s));
            } else {
                assert(spec_register(entries, new_entries[0]).contains(s));
                if s == new_entries[0] {
                    assert(new_entries[0] == s);
                    assert(new_entries.contains(s));
                }
            }
        }
    }
}

/// The package's vendor section, when its metadata carries one as an
/// object; any other shape there means the package contributes nothing.
pub open spec fn spec_vendor_section(p: PackageModel) -> Option<JsonValue> {
    match spec_member(p.metadata, "cargo_resources"@) {
        Some(s) => if s is Object {
            Some(s)
        } else {
            None
        },
        None => None,
    }
}

/// The entries of the vendor section's `provides` list, when there is one.
pub open spec fn spec_provides_items(p: PackageModel) -> Option<Seq<JsonValue>> {
    match spec_vendor_section(p) {
        Some(s) => match spec_member(s, "provides"@) {
            Some(JsonValue::Array(items)) => Some(items@),
            _ => None,
        },
        None => None,
    }
}

/// The `provides` member has an acceptable shape: absent, null, or a list.
pub open spec fn spec_provides_shape_ok(p: PackageModel) -> bool {
    match spec_vendor_section(p) {
        Some(s) => match spec_member(s, "provides"@) {
            None => true,
            Some(JsonValue::Null) => true,
            Some(JsonValue::Array(_)) => true,
            Some(_) => false,
        },
        None => true,
    }
}

/// The resolved output path of an entry: the declared one, else the
/// declared source path.
pub open spec fn spec_entry_output(e: JsonValue) -> Seq<char> {
    match spec_opt_str_field(e, "output_path"@) {
        Some(p) => p,
        None => spec_crate_path_field(e),
    }
}

/// The resolved name of an entry: the declared one, else the file-name
/// component of the declared source path.
pub open spec fn spec_entry_name(e: JsonValue) -> Option<Seq<char>> {
    match spec_opt_str_field(e, "resource_name"@) {
        Some(n) => Some(n),
        None => spec_file_name(spec_crate_path_field(e)),
    }
}

/// The resolved encoding of an entry; text is the default.
pub open spec fn spec_entry_encoding(e: JsonValue) -> ResourceEncoding {
    match spec_encoding_field(e) {
        Some(x) => x,
        None => ResourceEncoding::Txt,
    }
}

/// An entry is acceptable when it parses, declares no absolute source or
/// output path, and has a derivable name.
pub open spec fn spec_entry_ok(e: JsonValue) -> bool {
    &&& spec_data_declaration_ok(e)
    &&& !path_is_absolute(spec_crate_path_field(e))
    &&& !path_is_absolute(spec_entry_output(e))
    &&& spec_entry_name(e) is Some
}

/// Every entry of a provides list is acceptable.
pub open spec fn spec_entries_ok(items: Seq<JsonValue>) -> bool {
    forall|i: int| 0 <= i < items.len() ==> spec_entry_ok(#[trigger] items[i])
}

/// A package's declarations are acceptable as a whole.
pub open spec fn spec_package_resources_ok(p: PackageModel) -> bool {
    &&& spec_provides_shape_ok(p)
    &&& match spec_provides_items(p) {
        Some(items) => spec_entries_ok(items),
        None => true,
    }
}

/// The specification an entry resolves to for its declaring package.
pub open spec fn spec_entry_to_specification(
    p: PackageModel,
    e: JsonValue,
    s: ResourceSpecification,
) -> bool {
    &&& s.declaring_crate_name@ == p.name@
    &&& s.declaring_crate_version@ == p.version@
    &&& s.encoding == spec_entry_encoding(e)
    &&& s.full_crate_path@ == spec_join_paths(p.manifest_dir@, spec_crate_path_field(e))
    &&& s.output_path@ == spec_entry_output(e)
    &&& Some(s.resource_name@) == spec_entry_name(e)
}

/// What scanning a package collects: one specification per provides entry,
/// in order.
pub open spec fn spec_collected(p: PackageModel, specs: Seq<ResourceSpecification>) -> bool {
    match spec_provides_items(p) {
        Some(items) => specs.len() == items.len() && forall|i: int|
            0 <= i < items.len() ==> spec_entry_to_specification(p, items[i], #[trigger] specs[i]),
        None => specs.len() == 0,
    }
}

/// One of the listed entries resolves to the specification.
pub open spec fn spec_items_declare(
    p: PackageModel,
    items: Seq<JsonValue>,
    s: ResourceSpecification,
) -> bool {
    exists|j: int| 0 <= j < items.len() && spec_entry_to_specification(p, #[trigger] items[j], s)
}

/// The package declares the specification through one of its entries.
pub open spec fn spec_package_declares(p: PackageModel, s: ResourceSpecification) -> bool {
    match spec_provides_items(p) {
        Some(items) => spec_items_declare(p, items, s),
        None => false,
    }
}

/// The duplicate events match the triples (name, replaced, new), one for
/// one and in order.
pub open spec fn spec_events_match(
    events: Seq<ReportEvent>,
    triples: Seq<(Seq<char>, Seq<char>, Seq<char>)>,
) -> bool {
    &&& events.len() == triples.len()
    &&& forall|k: int|
        0 <= k < events.len() ==> match #[trigger] events[k] {
            ReportEvent::DuplicateResource { resolved_name, replaced, with_path } => {
                &&& resolved_name@ == triples[k].0
                &&& replaced@ == triples[k].1
                &&& with_path@ == triples[k].2
            },
            _ => false,
        }
}

proof fn lemma_collected_provenance(
    entries0: Seq<ResourceSpecification>,
    collected: Seq<ResourceSpecification>,
    p: PackageModel,
    items: Seq<JsonValue>,
    entries_now: Seq<ResourceSpecification>,
)
    requires
        entries_now == spec_register_all(entries0, collected),
        spec_provides_items(p) == Some(items),
        collected.len() <= items.len(),
        forall|j: int|
            0 <= j < collected.len() ==> spec_entry_to_specification(
                p,
                items[j],
                #[trigger] collected[j],
            ),
    ensures
        forall|s: ResourceSpecification| #[trigger]
            entries_now.contains(s) ==> entries0.contains(s) || spec_package_declares(p, s),
{
    lemma_register_all_provenance(entries0, collected);
    assert forall|s: ResourceSpecification| #[trigger]
        entries_now.contains(s) implies entries0.contains(s) || spec_package_declares(p, s) by {
        if collected.contains(s) {
            let j = choose|j: int| 0 <= j < collected.len() && collected[j] == s;
            assert(spec_entry_to_specification(p, items[j], s));
            assert(spec_items_declare(p, items, s));
            assert(spec_package_declares(p, s));
        }
    }
}

/// The least index whose provides entry is not acceptable, or the list's
/// length when all are.
pub open spec fn spec_first_bad_entry(items: Seq<JsonValue>) -> int
    decreases items.len(),
{
    if items.len() == 0 {
        0
    } else if !spec_entry_ok(items[0]) {
        0
    } else {
        1 + spec_first_bad_entry(items.drop_first())
    }
}

/// Nothing before a failing entry fails, and it fails itself: that entry
/// is the first bad one.
pub proof fn lemma_first_bad_entry(items: Seq<JsonValue>, i: int)
    requires
        0 <= i < items.len(),
        !spec_entry_ok(items[i]),
        forall|j: int| 0 <= j < i ==> spec_entry_ok(#[trigger] items[j]),
    ensures
        spec_first_bad_entry(items) == i,
    decreases i,
{
    if i > 0 {
        lemma_first_bad_entry(items.drop_first(), i - 1);
    }
}

/// The message the first unacceptable entry fails with, in check order:
/// parse, derivable name, absolute source path, absolute output path.
pub open spec fn spec_entry_error_message(p: PackageModel, e: JsonValue) -> Seq<char> {
    if !spec_data_declaration_ok(e) {
        spec_malformed_declaration_message(p.name@, spec_data_declaration_error(e))
    } else if !(spec_entry_name(e) is Some) {
        "Crate "@ + p.name@ + " declares a resource whose name cannot be taken from "@
            + spec_crate_path_field(e)
    } else if path_is_absolute(spec_crate_path_field(e)) {
        "Crate "@ + p.name@ + " declares an absolute resource path "@ + spec_crate_path_field(e)
    } else {
        "Crate "@ + p.name@ + " declares an absolute output path "@ + spec_entry_output(e)
    }
}

/// A prefix of the entries collected: one specification per entry, in
/// order, up to an exclusive bound.
pub open spec fn spec_collected_prefix(
    p: PackageModel,
    items: Seq<JsonValue>,
    k: int,
    specs: Seq<ResourceSpecification>,
) -> bool {
    &&& specs.len() == k
    &&& forall|j: int| 0 <= j < k ==> spec_entry_to_specification(p, items[j], #[trigger] specs[j])
}

/// How a failing provides list leaves the registry and what the error
/// says: the first unacceptable entry names the message, the acceptable
/// entries before it stay registered, and nothing after it is processed.
pub open spec fn spec_entry_failure(
    p: PackageModel,
    entries_before: Seq<ResourceSpecification>,
    entries_after: Seq<ResourceSpecification>,
    items: Seq<JsonValue>,
    message: Seq<char>,
) -> bool {
    let k = spec_first_bad_entry(items);
    &&& 0 <= k < items.len()
    &&& message == spec_entry_error_message(p, items[k])
    &&& exists|specs: Seq<ResourceSpecification>|
        {
            &&& #[trigger] spec_collected_prefix(p, items, k, specs)
            &&& entries_after == spec_register_all(entries_before, specs)
        }
}

/// Gather all resource declarations of one package into the registry.
/// Later declarations overwrite earlier ones of the same name, each
/// overwrite reported as a duplicate event, in order. A malformed section
/// or entry fails the run; entries registered before the fault stay
/// registered, as the whole run halts on the error anyway.
pub fn get_package_resource_data(package: &PackageModel, resources: &mut Registry) -> (r: Result<
    Vec<ReportEvent>,
    CollationError,
>)
    requires
        old(resources).wf(),
    ensures
        final(resources).wf(),
        r is Ok <==> spec_package_resources_ok(*package),
        r matches Ok(events) ==> exists|specs: Seq<ResourceSpecification>|
            {
                &&& #[trigger] spec_collected(*package, specs)
                &&& final(resources).entries() == spec_register_all(
                    old(resources).entries(),
                    specs,
                )
                &&& spec_events_match(
                    events@,
                    spec_duplicate_triples(old(resources).entries(), specs),
                )
            },
        forall|s: ResourceSpecification| #[trigger]
            final(resources).entries().contains(s) ==> old(resources).entries().contains(s)
                || spec_package_declares(*package, s),
        r matches Err(e) ==> e is DeclarationError && (if !spec_provides_shape_ok(*package) {
            &&& e.spec_message()
                == "unexpected type for [package.metadata.cargo_resources].provides in the json-metadata"@
            &&& final(resources).entries() == old(resources).entries()
        } else {
            match spec_provides_items(*package) {
                Some(items) => spec_entry_failure(
                    *package,
                    old(resources).entries(),
                    final(resources).entries(),
                    items,
                    e.spec_message(),
                ),
                None => false,
            }
        }),
{
    let ghost entries0 = resources.entries();
    let section: &JsonValue = match package.metadata.member("cargo_resources") {
        Some(s) => {
            if s.is_object() {
                s
            } else {
                proof {
                    assert(spec_collected(*package, Seq::<ResourceSpecification>::empty()));
                }
                return Ok(Vec::new());
            }
        },
        None => {
            proof {
                assert(spec_collected(*package, Seq::<ResourceSpecification>::empty()));
            }
            return Ok(Vec::new());
        },
    };
    let provides: &Vec<JsonValue> = match section.member("provides") {
        None => {
            proof {
                assert(spec_collected(*package, Seq::<ResourceSpecification>::empty()));
            }
            return Ok(Vec::new());
        },
        Some(JsonValue::Null) => {
            proof {
                assert(spec_collected(*package, Seq::<ResourceSpecification>::empty()));
            }
            return Ok(Vec::new());
        },
        Some(JsonValue::Array(items)) => items,
        Some(_) => {
            return Err(
                CollationError::DeclarationError(
                    "unexpected type for [package.metadata.cargo_resources].provides in the json-metadata".to_owned(),
                ),
            );
        },
    };
    let n = provides.len();
    let mut events: Vec<ReportEvent> = Vec::new();
    let ghost mut collected: Seq<ResourceSpecification> = Seq::empty();
    let mut i: usize = 0;
    proof {
        assert(spec_provides_items(*package) == Some(provides@));
    }
    while i < n
        invariant
            resources.wf(),
            i <= n,
            n == provides@.len(),
            spec_provides_items(*package) == Some(provides@),
            spec_provides_shape_ok(*package),
            entries0 == old(resources).entries(),
            collected.len() == i,
            forall|j: int| 0 <= j < i ==> spec_entry_ok(#[trigger] provides@[j]),
            forall|j: int|
                0 <= j < i ==> spec_entry_to_specification(
                    *package,
                    provides@[j],
                    #[trigger] collected[j],
                ),
            resources.entries() == spec_register_all(entries0, collected),
            spec_events_match(events@, spec_duplicate_triples(entries0, collected)),
        decreases n - i,
    {
        let decl = match parse_data_declaration(&provides[i]) {
            Ok(d) => d,
            Err(msg) => {
                let mut m = "Malformed resource declaration in ".to_owned();
                m.append(package.name.as_str());
                m.append(": ");
                m.append(msg.as_str());
                proof {
                    assert(!spec_entry_ok(provides@[i as int]));
                    assert(!spec_entries_ok(provides@));
                    lemma_first_bad_entry(provides@, i as int);
                    assert(spec_collected_prefix(*package, provides@, i as int, collected));
                    assert(m@ == spec_entry_error_message(*package, provides@[i as int]));
                    assert(spec_entry_failure(
                        *package,
                        entries0,
                        resources.entries(),
                        provides@,
                        m@,
                    ));
                    lemma_collected_provenance(
                        entries0,
                        collected,
                        *package,
                        provides@,
                        resources.entries(),
                    );
                }
                return Err(CollationError::DeclarationError(m));
            },
        };
        let resolved_output: String = match decl.output_path {
            Some(p) => p,
            None => decl.crate_path.clone(),
        };
        let resolved_name: String = match decl.resource_name {
            Some(nm) => nm,
            None => match file_name_of(decl.crate_path.as_str()) {
                Some(f) => f,
                None => {
                    let mut m = "Crate ".to_owned();
                    m.append(package.name.as_str());
                    m.append(" declares a resource whose name cannot be taken from ");
                    m.append(decl.crate_path.as_str());
                    proof {
                        assert(!(spec_entry_name(provides@[i as int]) is Some));
                        assert(!spec_entry_ok(provides@[i as int]));
                        assert(!spec_entries_ok(provides@));
                        lemma_first_bad_entry(provides@, i as int);
                        assert(spec_collected_prefix(*package, provides@, i as int, collected));
                        assert(m@ == spec_entry_error_message(*package, provides@[i as int]));
                        assert(spec_entry_failure(
                            *package,
                            entries0,
                            resources.entries(),
                            provides@,
                            m@,
                        ));
                        lemma_collected_provenance(
                            entries0,
                            collected,
                            *package,
                            provides@,
                            resources.entries(),
                        );
                    }
                    return Err(CollationError::DeclarationError(m));
                },
            },
        };
        if is_absolute_path(decl.crate_path.as_str()) {
            let mut m = "Crate ".to_owned();
            m.append(package.name.as_str());
            m.append(" declares an absolute resource path ");
            m.append(decl.crate_path.as_str());
            proof {
                assert(spec_entry_name(provides@[i as int]) is Some);
                assert(!spec_entry_ok(provides@[i as int]));
                assert(!spec_entries_ok(provides@));
                lemma_first_bad_entry(provides@, i as int);
                assert(spec_collected_prefix(*package, provides@, i as int, collected));
                assert(m@ == spec_entry_error_message(*package, provides@[i as int]));
                assert(spec_entry_failure(
                    *package,
                    entries0,
                    resources.entries(),
                    provides@,
                    m@,
                ));
                lemma_collected_provenance(
                    entries0,
                    collected,
                    *package,
                    provides@,
                    resources.entries(),
                );
            }
            return Err(CollationError::DeclarationError(m));
        }
        if is_absolute_path(resolved_output.as_str()) {
            let mut m = "Crate ".to_owned();
            m.append(package.name.as_str());
            m.append(" declares an absolute output path ");
            m.append(resolved_output.as_str());
            proof {
                assert(spec_entry_name(provides@[i as int]) is Some);
                assert(!path_is_absolute(spec_crate_path_field(provides@[i as int])));
                assert(path_is_absolute(spec_entry_output(provides@[i as int])));
                assert(!spec_entry_ok(provides@[i as int]));
                assert(!spec_entries_ok(provides@));
                lemma_first_bad_entry(provides@, i as int);
                assert(spec_collected_prefix(*package, provides@, i as int, collected));
                assert(m@ == spec_entry_error_message(*package, provides@[i as int]));
                assert(spec_entry_failure(
                    *package,
                    entries0,
                    resources.entries(),
                    provides@,
                    m@,
                ));
                lemma_collected_provenance(
                    entries0,
                    collected,
                    *package,
                    provides@,
                    resources.entries(),
                );
            }
            return Err(CollationError::DeclarationError(m));
        }
        let full_source_path = join_paths(package.manifest_dir.as_str(), decl.crate_path.as_str());
        let entry = ResourceSpecification {
            declaring_crate_name: package.name.clone(),
            declaring_crate_version: package.version.clone(),
            encoding: match decl.encoding {
                Some(e) => e,
                None => ResourceEncoding::Txt,
            },
            full_crate_path: full_source_path,
            output_path: resolved_output,
            resource_name: resolved_name,
        };
        let ghost gentry = entry;
        proof {
            assert(spec_entry_ok(provides@[i as int]));
            assert(spec_entry_to_specification(*package, provides@[i as int], gentry));
        }
        let event_name = entry.resource_name.clone();
        let event_with = entry.full_crate_path.clone();
        let ghost collected_before = collected;
        let replaced = resources.insert(entry);
        match replaced {
            Some(prev) => {
                events.push(
                    ReportEvent::DuplicateResource {
                        resolved_name: event_name,
                        replaced: prev.full_crate_path,
                        with_path: event_with,
                    },
                );
            },
            None => {},
        }
        proof {
            collected = collected_before.push(gentry);
            lemma_register_all_snoc(entries0, collected_before, gentry);
            lemma_duplicate_triples_snoc(entries0, collected_before, gentry);
            assert(spec_events_match(events@, spec_duplicate_triples(entries0, collected)));
        }
        i = i + 1;
    }
    proof {
        assert(spec_entries_ok(provides@));
        assert(spec_collected(*package, collected));
        lemma_collected_provenance(entries0, collected, *package, provides@, resources.entries());
    }
    Ok(events)
}


/// What a whole scan collects: one specification list per package, the
/// in-scope packages' collected lists and empty lists for the others.
pub open spec fn spec_scope_collected(
    details: Seq<PackageDetails>,
    lists: Seq<Seq<ResourceSpecification>>,
) -> bool {
    &&& lists.len() == details.len()
    &&& forall|i: int|
        0 <= i < details.len() ==> if details[i].spec_is_dependency() {
            spec_collected(details[i].package, #[trigger] lists[i])
        } else {
            lists[i].len() == 0
        }
}

/// Registering the lists onto the entries, in order.
pub open spec fn spec_register_lists(
    entries: Seq<ResourceSpecification>,
    lists: Seq<Seq<ResourceSpecification>>,
) -> Seq<ResourceSpecification>
    decreases lists.len(),
{
    if lists.len() == 0 {
        entries
    } else {
        spec_register_lists(spec_register_all(entries, lists[0]), lists.drop_first())
    }
}

/// The duplicate notifications of registering the lists in order.
pub open spec fn spec_duplicate_triples_lists(
    entries: Seq<ResourceSpecification>,
    lists: Seq<Seq<ResourceSpecification>>,
) -> Seq<(Seq<char>, Seq<char>, Seq<char>)>
    decreases lists.len(),
{
    if lists.len() == 0 {
        Seq::empty()
    } else {
        spec_duplicate_triples(entries, lists[0]) + spec_duplicate_triples_lists(
            spec_register_all(entries, lists[0]),
            lists.drop_first(),
        )
    }
}

pub proof fn lemma_register_lists_snoc(
    entries: Seq<ResourceSpecification>,
    lists: Seq<Seq<ResourceSpecification>>,
    l: Seq<ResourceSpecification>,
)
    ensures
        spec_register_lists(entries, lists.push(l)) == spec_register_all(
            spec_register_lists(entries, lists),
            l,
        ),
    decreases lists.len(),
{
    let p = lists.push(l);
    if lists.len() == 0 {
        assert(p[0] == l);
        assert(p.drop_first() =~= Seq::<Seq<ResourceSpecification>>::empty());
        assert(spec_register_lists(entries, p) == spec_register_lists(
            spec_register_all(entries, l),
            p.drop_first(),
        ));
    } else {
        assert(p[0] == lists[0]);
        assert(p.drop_first() =~= lists.drop_first().push(l));
        lemma_register_lists_snoc(spec_register_all(entries, lists[0]), lists.drop_first(), l);
        assert(spec_register_lists(entries, p) == spec_register_lists(
            spec_register_all(entries, lists[0]),
            lists.drop_first().push(l),
        ));
        assert(spec_register_lists(entries, lists) == spec_register_lists(
            spec_register_all(entries, lists[0]),
            lists.drop_first(),
        ));
    }
}

pub proof fn lemma_duplicate_triples_lists_snoc(
    entries: Seq<ResourceSpecification>,
    lists: Seq<Seq<ResourceSpecification>>,
    l: Seq<ResourceSpecification>,
)
    ensures
        spec_duplicate_triples_lists(entries, lists.push(l)) == spec_duplicate_triples_lists(
            entries,
            lists,
        ) + spec_duplicate_triples(spec_register_lists(entries, lists), l),
    decreases lists.len(),
{
    let p = lists.push(l);
    if lists.len() == 0 {
        assert(p[0] == l);
        assert(p.drop_first() =~= Seq::<Seq<ResourceSpecification>>::empty());
        assert(spec_duplicate_triples_lists(entries, p) == spec_duplicate_triples(entries, l)
            + spec_duplicate_triples_lists(spec_register_all(entries, l), p.drop_first()));
        assert(spec_duplicate_triples_lists(entries, p) =~= spec_duplicate_triples_lists(
            entries,
            lists,
        ) + spec_duplicate_triples(spec_register_lists(entries, lists), l));
    } else {
        assert(p[0] == lists[0]);
        assert(p.drop_first() =~= lists.drop_first().push(l));
        lemma_duplicate_triples_lists_snoc(
            spec_register_all(entries, lists[0]),
            lists.drop_first(),
            l,
        );
        assert(spec_duplicate_triples_lists(entries, p) == spec_duplicate_triples(
            entries,
            lists[0],
        ) + spec_duplicate_triples_lists(
            spec_register_all(entries, lists[0]),
            lists.drop_first().push(l),
        ));
        assert(spec_duplicate_triples_lists(entries, lists) == spec_duplicate_triples(
            entries,
            lists[0],
        ) + spec_duplicate_triples_lists(
            spec_register_all(entries, lists[0]),
            lists.drop_first(),
        ));
        assert(spec_register_lists(entries, lists) == spec_register_lists(
            spec_register_all(entries, lists[0]),
            lists.drop_first(),
        ));
        assert(spec_duplicate_triples_lists(entries, p) =~= spec_duplicate_triples_lists(
            entries,
            lists,
        ) + spec_duplicate_triples(spec_register_lists(entries, lists), l));
    }
}

/// Some in-scope package declares the specification.
pub open spec fn spec_declared_in_scope(
    details: Seq<PackageDetails>,
    s: ResourceSpecification,
) -> bool {
    exists|i: int|
        0 <= i < details.len() && (#[trigger] details[i]).spec_is_dependency()
            && spec_package_declares(details[i].package, s)
}

/// Every in-scope package's declarations are acceptable.
pub open spec fn spec_all_in_scope_ok(details: Seq<PackageDetails>) -> bool {
    forall|i: int|
        0 <= i < details.len() && (#[trigger] details[i]).spec_is_dependency()
            ==> spec_package_resources_ok(details[i].package)
}

/// Build the declaration registry from every in-scope package, in order.
/// Only packages in the consumer's dependency closure contribute: what a
/// package outside it declares never enters the registry, and everything
/// the in-scope packages declare does, later names overwriting earlier
/// ones. The returned events are exactly the duplicate notifications of
/// that fold, in the order they arose.
pub fn collect_declared_resources(details: &Vec<PackageDetails>) -> (r: Result<
    (Registry, Vec<ReportEvent>),
    CollationError,
>)
    ensures
        r is Ok <==> spec_all_in_scope_ok(details@),
        r matches Ok((reg, events)) ==> {
            &&& reg.wf()
            &&& forall|s: ResourceSpecification| #[trigger]
                reg.entries().contains(s) ==> spec_declared_in_scope(details@, s)
            &&& exists|lists: Seq<Seq<ResourceSpecification>>|
                {
                    &&& #[trigger] spec_scope_collected(details@, lists)
                    &&& reg.entries() == spec_register_lists(
                        Seq::<ResourceSpecification>::empty(),
                        lists,
                    )
                    &&& spec_events_match(
                        events@,
                        spec_duplicate_triples_lists(
                            Seq::<ResourceSpecification>::empty(),
                            lists,
                        ),
                    )
                }
            &&& forall|k: int|
                0 <= k < events@.len() ==> (#[trigger] events@[k]) is DuplicateResource
        },
        r matches Err(e) ==> e is DeclarationError,
{
    let n = details.len();
    let mut resources = Registry::new();
    let mut events: Vec<ReportEvent> = Vec::new();
    let ghost mut lists: Seq<Seq<ResourceSpecification>> = Seq::empty();
    let mut i: usize = 0;
    while i < n
        invariant
            i <= n,
            n == details@.len(),
            resources.wf(),
            lists.len() == i,
            forall|j: int|
                0 <= j < i ==> if details@[j].spec_is_dependency() {
                    spec_collected(details@[j].package, #[trigger] lists[j])
                } else {
                    lists[j].len() == 0
                },
            forall|j: int|
                0 <= j < i && (#[trigger] details@[j]).spec_is_dependency()
                    ==> spec_package_resources_ok(details@[j].package),
            resources.entries() == spec_register_lists(
                Seq::<ResourceSpecification>::empty(),
                lists,
            ),
            spec_events_match(
                events@,
                spec_duplicate_triples_lists(Seq::<ResourceSpecification>::empty(), lists),
            ),
            forall|s: ResourceSpecification| #[trigger]
                resources.entries().contains(s) ==> spec_declared_in_scope(details@, s),
            forall|k: int|
                0 <= k < events@.len() ==> (#[trigger] events@[k]) is DuplicateResource,
        decreases n - i,
    {
        if details[i].is_dependency() {
            let ghost entries_before = resources.entries();
            match get_package_resource_data(&details[i].package, &mut resources) {
                Ok(mut package_events) => {
                    proof {
                        assert forall|s: ResourceSpecification| #[trigger]
                            resources.entries().contains(s) implies spec_declared_in_scope(
                            details@,
                            s,
                        ) by {
                            if !entries_before.contains(s) {
                                assert(spec_package_declares(details@[i as int].package, s));
                                assert(spec_declared_in_scope(details@, s));
                            }
                        }
                    }
                    let ghost lists_before = lists;
                    let ghost specs = choose|specs: Seq<ResourceSpecification>|
                        {
                            &&& #[trigger] spec_collected(details@[i as int].package, specs)
                            &&& resources.entries() == spec_register_all(entries_before, specs)
                            &&& spec_events_match(
                                package_events@,
                                spec_duplicate_triples(entries_before, specs),
                            )
                        };
                    let ghost events_before = events@;
                    let ghost pkg_events = package_events@;
                    events.append(&mut package_events);
                    proof {
                        lemma_register_lists_snoc(
                            Seq::<ResourceSpecification>::empty(),
                            lists_before,
                            specs,
                        );
                        lemma_duplicate_triples_lists_snoc(
                            Seq::<ResourceSpecification>::empty(),
                            lists_before,
                            specs,
                        );
                        lists = lists_before.push(specs);
                        let all = spec_duplicate_triples_lists(
                            Seq::<ResourceSpecification>::empty(),
                            lists,
                        );
                        let old_part = spec_duplicate_triples_lists(
                            Seq::<ResourceSpecification>::empty(),
                            lists_before,
                        );
                        assert(spec_register_lists(
                            Seq::<ResourceSpecification>::empty(),
                            lists_before,
                        ) == entries_before);
                        let new_part = spec_duplicate_triples(entries_before, specs);
                        assert(all == old_part + new_part);
                        assert(events@ == events_before + pkg_events);
                        assert forall|k: int| 0 <= k < events@.len() implies match (
                        #[trigger] events@[k]) {
                            ReportEvent::DuplicateResource { resolved_name, replaced, with_path } => {
                                &&& resolved_name@ == all[k].0
                                &&& replaced@ == all[k].1
                                &&& with_path@ == all[k].2
                            },
                            _ => false,
                        } by {
                            if k < events_before.len() {
                                assert(events@[k] == events_before[k]);
                                assert(all[k] == old_part[k]);
                            } else {
                                assert(events@[k] == pkg_events[k - events_before.len()]);
                                assert(all[k] == new_part[k - old_part.len()]);
                            }
                        }
                        assert(spec_events_match(events@, all));
                        assert forall|k: int| 0 <= k < events@.len() implies (
                        #[trigger] events@[k]) is DuplicateResource by {
                            assert(spec_events_match(events@, all));
                        }
                    }
                },
                Err(e) => {
                    proof {
                        assert(!spec_package_resources_ok(details@[i as int].package));
                        assert(!spec_all_in_scope_ok(details@));
                    }
                    return Err(e);
                },
            }
        } else {
            proof {
                let lists_before = lists;
                lemma_register_lists_snoc(
                    Seq::<ResourceSpecification>::empty(),
                    lists_before,
                    Seq::<ResourceSpecification>::empty(),
                );
                lemma_duplicate_triples_lists_snoc(
                    Seq::<ResourceSpecification>::empty(),
                    lists_before,
                    Seq::<ResourceSpecification>::empty(),
                );
                let reached = spec_register_lists(
                    Seq::<ResourceSpecification>::empty(),
                    lists_before,
                );
                assert(spec_register_all(reached, Seq::<ResourceSpecification>::empty())
                    == reached);
                assert(spec_duplicate_triples(reached, Seq::<ResourceSpecification>::empty())
                    =~= Seq::<(Seq<char>, Seq<char>, Seq<char>)>::empty());
                lists = lists_before.push(Seq::<ResourceSpecification>::empty());
                assert(spec_duplicate_triples_lists(Seq::<ResourceSpecification>::empty(), lists)
                    =~= spec_duplicate_triples_lists(
                    Seq::<ResourceSpecification>::empty(),
                    lists_before,
                ));
            }
        }
        i = i + 1;
    }
    proof {
        assert(spec_scope_collected(details@, lists));
    }
    Ok((resources, events))
}

/// Law: later declarations win, with exactly one notification. Registering
/// a fresh name and then a second entry of the same name leaves the second
/// entry registered under the name, and emits exactly one duplicate
/// notification, naming the resource, the replaced source path and the
/// replacing one.
pub proof fn lemma_duplicate_resolution(
    entries: Seq<ResourceSpecification>,
    first: ResourceSpecification,
    second: ResourceSpecification,
)
    requires
        spec_lookup(entries, first.resource_name@) is None,
        second.resource_name@ == first.resource_name@,
    ensures
        spec_lookup(
            spec_register_all(entries, seq![first, second]),
            first.resource_name@,
        ) == Some(second),
        spec_duplicate_triples(entries, seq![first, second]) =~= seq![
            (second.resource_name@, first.full_crate_path@, second.full_crate_path@),
        ],
{
    let name = first.resource_name@;
    lemma_index_of_properties(entries, name);
    let after_first = spec_register(entries, first);
    assert(after_first == entries.push(first));
    lemma_index_of_first(after_first, name, entries.len() as int);
    assert(spec_lookup(after_first, name) == Some(first));
    let after_second = spec_register(after_first, second);
    assert(after_second == after_first.update(entries.len() as int, second));
    lemma_index_of_first(after_second, name, entries.len() as int);
    assert(spec_lookup(after_second, name) == Some(second));
    let two = seq![first, second];
    assert(two[0] == first && two[1] == second);
    assert(two.drop_first() =~= seq![second]);
    assert(seq![second].drop_first() =~= Seq::<ResourceSpecification>::empty());
    assert(spec_register_all(entries, two) == spec_register_all(after_first, two.drop_first()));
    assert(spec_register_all(after_first, seq![second]) == spec_register_all(
        after_second,
        Seq::<ResourceSpecification>::empty(),
    ));
    assert(spec_register_all(entries, two) == after_second);
    assert(spec_duplicate_triples(entries, two) == spec_duplicate_triples(
        after_first,
        two.drop_first(),
    ));
    assert(spec_duplicate_triples(after_first, seq![second]) =~= seq![
        (second.resource_name@, first.full_crate_path@, second.full_crate_path@),
    ] + spec_duplicate_triples(after_second, Seq::<ResourceSpecification>::empty()));
}


} // verus!
