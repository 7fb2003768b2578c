//! What is known of a container's runtime, gathered from the fact files that
//! the fingerprints wrote.

use crate::entries::{Entries, ordered_pairs};
use crate::file::{FactFile, key_value_entries, read_key_value_file};
use crate::text::{same_text, text_ends_with, text_view};
use vstd::prelude::*;

verus! {

/// A component of a runtime, with its version where that is known.
#[derive(Debug, PartialEq, Eq)]
pub struct RuntimeComponentInfo {
    name: String,
    version: Option<String>,
}

/// What is known of the runtime of a container.
#[derive(Debug)]
pub struct RuntimeInfo {
    os_id: Option<String>,
    os_version_id: Option<String>,
    kind: Option<String>,
    kind_version: Option<String>,
    kind_implementer: Option<String>,
    runtimes: Vec<RuntimeComponentInfo>,
}

/// A component, as texts.
pub struct ComponentFacts {
    pub name: Seq<char>,
    pub version: Option<Seq<char>>,
}

/// What is known of a runtime, as texts.
pub struct RuntimeFacts {
    pub os_id: Option<Seq<char>>,
    pub os_version_id: Option<Seq<char>>,
    pub kind: Option<Seq<char>>,
    pub kind_version: Option<Seq<char>>,
    pub kind_implementer: Option<Seq<char>>,
    pub runtimes: Seq<ComponentFacts>,
}

impl View for RuntimeComponentInfo {
    type V = ComponentFacts;

    closed spec fn view(&self) -> ComponentFacts {
        ComponentFacts { name: self.name@, version: text_view(self.version) }
    }
}

/// The views of a sequence of components.
pub open spec fn component_views(components: Seq<RuntimeComponentInfo>) -> Seq<ComponentFacts> {
    components.map_values(|c: RuntimeComponentInfo| c@)
}

impl View for RuntimeInfo {
    type V = RuntimeFacts;

    closed spec fn view(&self) -> RuntimeFacts {
        RuntimeFacts {
            os_id: text_view(self.os_id),
            os_version_id: text_view(self.os_version_id),
            kind: text_view(self.kind),
            kind_version: text_view(self.kind_version),
            kind_implementer: text_view(self.kind_implementer),
            runtimes: component_views(self.runtimes@),
        }
    }
}

/// The value of `key` in `entries`, if it has one.
pub open spec fn fact(entries: Map<Seq<char>, Seq<char>>, key: Seq<char>) -> Option<Seq<char>> {
    if entries.contains_key(key) {
        Some(entries[key])
    } else {
        None
    }
}

/// The component that an entry names: the key is its name, the value its
/// version. An empty value stands for a version that is not known.
pub open spec fn component_of(entry: (Seq<char>, Seq<char>)) -> ComponentFacts {
    ComponentFacts {
        name: entry.0,
        version: if entry.1.len() == 0 {
            None
        } else {
            Some(entry.1)
        },
    }
}

/// The components that `pairs` name, in order.
pub open spec fn components_of(pairs: Seq<(Seq<char>, Seq<char>)>) -> Seq<ComponentFacts> {
    pairs.map_values(|e: (Seq<char>, Seq<char>)| component_of(e))
}

/// What the fact file `name`, which holds `entries`, adds to `facts`. The
/// file of the operating system gives its id and version, the file of the
/// runtime kind gives kind, version and implementer: a fact that such a file
/// does not hold is then not known. Any other file whose name ends with
/// `-fingerprints.txt` adds one component for each of its entries, in the
/// order of the keys. A file of another name adds nothing.
pub open spec fn with_fact_file(
    facts: RuntimeFacts,
    name: Seq<char>,
    entries: Map<Seq<char>, Seq<char>>,
) -> RuntimeFacts {
    if name == "os-fingerprints.txt"@ {
        RuntimeFacts {
            os_id: fact(entries, "os-release-id"@),
            os_version_id: fact(entries, "os-release-version-id"@),
            ..facts
        }
    } else if name == "runtime-kind-fingerprints.txt"@ {
        RuntimeFacts {
            kind: fact(entries, "runtime-kind"@),
            kind_version: fact(entries, "runtime-kind-version"@),
            kind_implementer: fact(entries, "runtime-kind-implementer"@),
            ..facts
        }
    } else if "-fingerprints.txt"@.is_suffix_of(name) {
        RuntimeFacts {
            runtimes: facts.runtimes + components_of(ordered_pairs(entries)),
            ..facts
        }
    } else {
        facts
    }
}

/// Nothing known.
pub open spec fn no_facts() -> RuntimeFacts {
    RuntimeFacts {
        os_id: None,
        os_version_id: None,
        kind: None,
        kind_version: None,
        kind_implementer: None,
        runtimes: Seq::empty(),
    }
}

/// What the first `n` of `files`, taken in order, make known.
pub open spec fn gathered(files: Seq<FactFile>, n: int) -> RuntimeFacts
    decreases n,
{
    if n <= 0 || n > files.len() {
        no_facts()
    } else {
        with_fact_file(
            gathered(files, n - 1),
            files[n - 1].name@,
            key_value_entries(files[n - 1].content@),
        )
    }
}

/// The value of `key` in `entries`, if it has one.
fn fact_of(entries: &Entries, key: &str) -> (r: Option<String>)
    ensures
        text_view(r) == fact(entries@, key@),
{
    match entries.get(key) {
        Some(value) => Some(value.clone()),
        None => None,
    }
}

impl RuntimeComponentInfo {
    /// The name of the component.
    pub fn name(&self) -> (r: &String)
        ensures
            r@ == self@.name,
    {
        &self.name
    }

    /// The version of the component, where it is known.
    pub fn version(&self) -> (r: &Option<String>)
        ensures
            text_view(*r) == self@.version,
    {
        &self.version
    }
}

impl RuntimeInfo {
    /// Gathers what the fact files `files` make known, file after file.
    pub fn gather(files: &Vec<FactFile>) -> (info: RuntimeInfo)
        ensures
            info@ == gathered(files@, files@.len() as int),
    {
        let mut info = RuntimeInfo {
            os_id: None,
            os_version_id: None,
            kind: None,
            kind_version: None,
            kind_implementer: None,
            runtimes: Vec::new(),
        };
        assert(component_views(info.runtimes@) =~= Seq::<ComponentFacts>::empty());
        let mut i: usize = 0;
        while i < files.len()
            invariant
                i <= files@.len(),
                info@ == gathered(files@, i as int),
            decreases files.len() - i,
        {
            let file = &files[i];
            let entries = read_key_value_file(file.content.as_str());
            let name = file.name.as_str();
            if same_text(name, "os-fingerprints.txt") {
                info.os_id = fact_of(&entries, "os-release-id");
                info.os_version_id = fact_of(&entries, "os-release-version-id");
            } else if same_text(name, "runtime-kind-fingerprints.txt") {
                info.kind = fact_of(&entries, "runtime-kind");
                info.kind_version = fact_of(&entries, "runtime-kind-version");
                info.kind_implementer = fact_of(&entries, "runtime-kind-implementer");
            } else if text_ends_with(name, "-fingerprints.txt") {
                let n = entries.len();
                proof {
                    entries.lemma_pairs_ordered();
                }
                let ghost before = component_views(info.runtimes@);
                let mut k: usize = 0;
                assert(components_of(entries.pairs()).take(0) =~= Seq::<ComponentFacts>::empty());
                assert(before + Seq::<ComponentFacts>::empty() =~= before);
                while k < n
                    invariant
                        k <= n,
                        n == entries.pairs().len(),
                        info@ == (RuntimeFacts {
                            runtimes: before + components_of(entries.pairs()).take(k as int),
                            ..gathered(files@, i as int)
                        }),
                    decreases n - k,
                {
                    let version = entries.value_at(k);
                    let component = RuntimeComponentInfo {
                        name: entries.key_at(k).clone(),
                        version: if version.as_str().is_empty() {
                            None
                        } else {
                            Some(version.clone())
                        },
                    };
                    let ghost so_far = component_views(info.runtimes@);
                    info.runtimes.push(component);
                    proof {
                        assert(component@ == component_of(entries.pairs()[k as int]));
                        assert(component_views(info.runtimes@) =~= so_far.push(component@));
                        assert(components_of(entries.pairs()).take(k + 1) =~= components_of(
                            entries.pairs(),
                        ).take(k as int).push(component@));
                        assert(before + components_of(entries.pairs()).take(k + 1) =~= (before
                            + components_of(entries.pairs()).take(k as int)).push(component@));
                    }
                    k += 1;
                }
                assert(components_of(entries.pairs()).take(k as int) =~= components_of(
                    entries.pairs(),
                ));
            }
            i += 1;
        }
        info
    }

    /// The id of the operating system.
    pub fn os_id(&self) -> (r: &Option<String>)
        ensures
            text_view(*r) == self@.os_id,
    {
        &self.os_id
    }

    /// The version of the operating system.
    pub fn os_version_id(&self) -> (r: &Option<String>)
        ensures
            text_view(*r) == self@.os_version_id,
    {
        &self.os_version_id
    }

    /// The kind of the runtime.
    pub fn kind(&self) -> (r: &Option<String>)
        ensures
            text_view(*r) == self@.kind,
    {
        &self.kind
    }

    /// The version of the runtime.
    pub fn kind_version(&self) -> (r: &Option<String>)
        ensures
            text_view(*r) == self@.kind_version,
    {
        &self.kind_version
    }

    /// Who made the runtime.
    pub fn kind_implementer(&self) -> (r: &Option<String>)
        ensures
            text_view(*r) == self@.kind_implementer,
    {
        &self.kind_implementer
    }

    /// The components of the runtime.
    pub fn runtimes(&self) -> (r: &Vec<RuntimeComponentInfo>)
        ensures
            component_views(r@) == self@.runtimes,
    {
        &self.runtimes
    }
}

/// A file is told by the end of its name alone: one whose name does not end
/// with `-fingerprints.txt` adds nothing, whatever it holds.
pub proof fn lemma_other_files_add_nothing(
    facts: RuntimeFacts,
    name: Seq<char>,
    entries: Map<Seq<char>, Seq<char>>,
)
    requires
        !"-fingerprints.txt"@.is_suffix_of(name),
    ensures
        with_fact_file(facts, name, entries) == facts,
{
    reveal_strlit("-fingerprints.txt");
    reveal_strlit("os-fingerprints.txt");
    reveal_strlit("runtime-kind-fingerprints.txt");
    let suffix = "-fingerprints.txt"@;
    let os = "os-fingerprints.txt"@;
    let kind = "runtime-kind-fingerprints.txt"@;
    assert(os.subrange(os.len() - suffix.len(), os.len() as int) =~= suffix);
    assert(kind.subrange(kind.len() - suffix.len(), kind.len() as int) =~= suffix);
}

} // verus!
