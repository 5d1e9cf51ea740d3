//! The workspace metadata that Scarb reports, as far as resolution reads it;
//! selection of a package's compilation unit, its linked libraries and core
//! library, and its forge configuration.
use crate::error::ScarbError;
use crate::text::{
    lemma_lex_irreflexive, lemma_lex_total, lemma_lex_trans, lex_less, contains_seq, str_contains,
    str_eq, str_less,
};
use vstd::prelude::*;

verus! {

/// One source unit of a compilation unit.
#[derive(Debug, Clone, PartialEq)]
pub struct ComponentInfo {
    pub name: String,
    /// The component's entry file.
    pub source_path: String,
    /// The directory that holds the component's sources.
    pub source_root: String,
}

/// The target that a compilation unit builds.
#[derive(Debug, Clone, PartialEq)]
pub struct UnitTarget {
    /// `"starknet-contract"`, `"lib"` or another kind.
    pub kind: String,
    pub name: String,
    /// The target's entry file.
    pub source_path: String,
}

/// A buildable target of a package, with the components it compiles.
#[derive(Debug, Clone, PartialEq)]
pub struct CompilationUnitInfo {
    /// The id of the package that the unit belongs to.
    pub package: String,
    pub target: UnitTarget,
    pub components: Vec<ComponentInfo>,
}

/// The options that a package sets for forge under `[tool.snforge]`.
#[derive(Debug, Clone, Copy, PartialEq, Eq, Structural)]
pub struct ForgeConfigFromScarb {
    /// Stop a test run after its first failure.
    pub exit_first: bool,
}

impl Default for ForgeConfigFromScarb {
    fn default() -> (r: Self)
        ensures
            r == (ForgeConfigFromScarb { exit_first: false }),
    {
        ForgeConfigFromScarb { exit_first: false }
    }
}

/// One `[tool.<name>]` section of a package's manifest, read as forge's
/// options: the options, or the message of the error that reading gave.
#[derive(Debug, PartialEq)]
pub struct ToolSection {
    pub tool: String,
    pub forge_config: Result<ForgeConfigFromScarb, String>,
}

/// A package of the workspace.
#[derive(Debug, PartialEq)]
pub struct PackageInfo {
    pub id: String,
    /// The package's root directory.
    pub root: String,
    /// The package's `[tool.*]` sections.
    pub tool_sections: Vec<ToolSection>,
}

/// The packages and compilation units of a workspace.
#[derive(Debug, PartialEq)]
pub struct WorkspaceMetadata {
    pub packages: Vec<PackageInfo>,
    pub compilation_units: Vec<CompilationUnitInfo>,
}

/// A library that a compilation unit links against.
#[derive(Debug, Clone, PartialEq)]
pub struct LinkedLibrary {
    pub name: String,
    /// The directory that holds the library's sources.
    pub path: String,
}

/// What a successful dependency resolution gives: the package's root, the
/// target's entry file, the core library's source root, the linked libraries
/// and the target's name.
pub type PackageDependencies = (String, String, String, Vec<LinkedLibrary>, String);

/// A component is the core library when its entry path holds `core/src`.
pub open spec fn is_core(c: ComponentInfo) -> bool {
    contains_seq(c.source_path@, "core/src"@)
}

/// The priority of a target kind: contracts first, then libraries, then the rest.
pub open spec fn kind_rank(kind: Seq<char>) -> int {
    if kind == "starknet-contract"@ {
        0
    } else if kind == "lib"@ {
        1
    } else {
        2
    }
}

/// The selection order on target kinds: by rank, then by the kind itself.
pub open spec fn kind_before(a: Seq<char>, b: Seq<char>) -> bool {
    kind_rank(a) < kind_rank(b) || (kind_rank(a) == kind_rank(b) && lex_less(a, b))
}

pub open spec fn unit_kind(units: Seq<CompilationUnitInfo>, i: int) -> Seq<char> {
    units[i].target.kind@
}

pub open spec fn belongs_to(units: Seq<CompilationUnitInfo>, pkg: Seq<char>, i: int) -> bool {
    0 <= i < units.len() && units[i].package@ == pkg
}

/// Some compilation unit belongs to the package.
pub open spec fn has_unit(units: Seq<CompilationUnitInfo>, pkg: Seq<char>) -> bool {
    exists|j: int| belongs_to(units, pkg, j)
}

/// Unit `i` is the package's unit whose kind comes first in the selection
/// order, the earliest one among equals.
pub open spec fn is_selected(units: Seq<CompilationUnitInfo>, pkg: Seq<char>, i: int) -> bool {
    belongs_to(units, pkg, i) && forall|j: int|
        #![trigger units[j]]
        belongs_to(units, pkg, j) ==> (j < i ==> kind_before(unit_kind(units, i), unit_kind(units, j)))
            && (i < j ==> !kind_before(unit_kind(units, j), unit_kind(units, i)))
}

/// Package `p` is the first one with the id.
pub open spec fn is_first_package(pkgs: Seq<PackageInfo>, id: Seq<char>, p: int) -> bool {
    0 <= p < pkgs.len() && pkgs[p].id@ == id && forall|q: int|
        0 <= q < p ==> #[trigger] pkgs[q].id@ != id
}

pub open spec fn has_package(pkgs: Seq<PackageInfo>, id: Seq<char>) -> bool {
    exists|p: int| 0 <= p < pkgs.len() && #[trigger] pkgs[p].id@ == id
}

/// Component `c` is the first core-library component.
pub open spec fn is_first_core(cs: Seq<ComponentInfo>, c: int) -> bool {
    0 <= c < cs.len() && is_core(cs[c]) && forall|k: int| 0 <= k < c ==> !is_core(#[trigger] cs[k])
}

pub open spec fn has_core(cs: Seq<ComponentInfo>) -> bool {
    exists|c: int| 0 <= c < cs.len() && is_core(#[trigger] cs[c])
}

/// The linked library for each component that is not the core library, in
/// component order, as (name, path).
pub open spec fn linked_libraries_of(cs: Seq<ComponentInfo>) -> Seq<(Seq<char>, Seq<char>)>
    decreases cs.len(),
{
    if cs.len() == 0 {
        seq![]
    } else {
        let rest = linked_libraries_of(cs.drop_last());
        if is_core(cs.last()) {
            rest
        } else {
            rest.push((cs.last().name@, cs.last().source_root@))
        }
    }
}

pub open spec fn libraries_view(v: Seq<LinkedLibrary>) -> Seq<(Seq<char>, Seq<char>)> {
    v.map_values(|l: LinkedLibrary| (l.name@, l.path@))
}

proof fn lemma_kind_before_total(a: Seq<char>, b: Seq<char>)
    ensures
        kind_before(a, b) || kind_before(b, a) || a == b,
        !(kind_before(a, b) && kind_before(b, a)),
        !kind_before(a, a),
{
    lemma_lex_total(a, b);
    lemma_lex_irreflexive(a);
    if lex_less(a, b) && lex_less(b, a) {
        lemma_lex_trans(a, b, a);
    }
}

proof fn lemma_kind_before_trans(a: Seq<char>, b: Seq<char>, c: Seq<char>)
    requires
        kind_before(a, b),
        kind_before(b, c),
    ensures
        kind_before(a, c),
{
    if lex_less(a, b) && lex_less(b, c) {
        lemma_lex_trans(a, b, c);
    }
}

/// At most one unit is selected for a package.
pub proof fn lemma_selected_unique(units: Seq<CompilationUnitInfo>, pkg: Seq<char>, i: int, j: int)
    requires
        is_selected(units, pkg, i),
        is_selected(units, pkg, j),
    ensures
        i == j,
{
    let _ = units[i];
    let _ = units[j];
    lemma_kind_before_total(unit_kind(units, i), unit_kind(units, j));
}

fn kind_rank_of(kind: &str) -> (r: u8)
    ensures
        r as int == kind_rank(kind@),
{
    if str_eq(kind, "starknet-contract") {
        0
    } else if str_eq(kind, "lib") {
        1
    } else {
        2
    }
}

fn kind_precedes(a: &str, b: &str) -> (r: bool)
    ensures
        r == kind_before(a@, b@),
{
    let ra = kind_rank_of(a);
    let rb = kind_rank_of(b);
    ra < rb || (ra == rb && str_less(a, b))
}

/// The index of the compilation unit to build for the package: among the
/// package's units, the one whose kind comes first in the order
/// (`"starknet-contract"`, `"lib"`, then the others by name), the earliest
/// among equals. `None` when no unit belongs to the package.
pub fn select_unit(metadata: &WorkspaceMetadata, package: &String) -> (r: Option<usize>)
    ensures
        r is None <==> !has_unit(metadata.compilation_units@, package@),
        r matches Some(i) ==> is_selected(metadata.compilation_units@, package@, i as int),
{
    let units = &metadata.compilation_units;
    let ghost us = units@;
    let mut best: Option<usize> = None;
    let mut k: usize = 0;
    while k < units.len()
        invariant
            us == units@,
            k <= us.len(),
            best is None <==> forall|j: int| 0 <= j < k ==> !#[trigger] belongs_to(us, package@, j),
            best matches Some(b) ==> b < k && belongs_to(us, package@, b as int) && forall|j: int|
                #![trigger us[j]]
                0 <= j < k && belongs_to(us, package@, j) ==> (j < b ==> kind_before(
                    unit_kind(us, b as int),
                    unit_kind(us, j),
                )) && (b < j ==> !kind_before(unit_kind(us, j), unit_kind(us, b as int))),
        decreases us.len() - k,
    {
        let unit = &units[k];
        if str_eq(unit.package.as_str(), package.as_str()) {
            match best {
                None => {
                    best = Some(k);
                },
                Some(b) => {
                    if kind_precedes(unit.target.kind.as_str(), units[b].target.kind.as_str()) {
                        proof {
                            assert forall|j: int|
                                #![trigger us[j]]
                                0 <= j < k && belongs_to(us, package@, j) implies kind_before(
                                unit_kind(us, k as int),
                                unit_kind(us, j),
                            ) by {
                                lemma_kind_before_total(unit_kind(us, j), unit_kind(us, b as int));
                                if j != b && !kind_before(unit_kind(us, b as int), unit_kind(us, j)) {
                                    assert(unit_kind(us, j) == unit_kind(us, b as int));
                                }
                                if j != b && kind_before(unit_kind(us, b as int), unit_kind(us, j)) {
                                    lemma_kind_before_trans(
                                        unit_kind(us, k as int),
                                        unit_kind(us, b as int),
                                        unit_kind(us, j),
                                    );
                                }
                            }
                        }
                        best = Some(k);
                    }
                },
            }
        }
        proof {
            if best is Some {
                assert(belongs_to(us, package@, best->0 as int));
            }
        }
        k = k + 1;
    }
    proof {
        if best is None {
            assert forall|j: int| !belongs_to(us, package@, j) by {
                if 0 <= j < us.len() {
                    assert(!belongs_to(us, package@, j));
                }
            }
        }
    }
    best
}

/// The index of the first package with the id, if any.
fn find_package(metadata: &WorkspaceMetadata, package: &String) -> (r: Option<usize>)
    ensures
        r is None <==> !has_package(metadata.packages@, package@),
        r matches Some(p) ==> is_first_package(metadata.packages@, package@, p as int),
{
    let pkgs = &metadata.packages;
    let mut k: usize = 0;
    while k < pkgs.len()
        invariant
            pkgs@ == metadata.packages@,
            k <= pkgs@.len(),
            forall|q: int| 0 <= q < k ==> #[trigger] pkgs@[q].id@ != package@,
        decreases pkgs@.len() - k,
    {
        if str_eq(pkgs[k].id.as_str(), package.as_str()) {
            assert(metadata.packages@[k as int].id@ == package@);
            assert(is_first_package(metadata.packages@, package@, k as int));
            return Some(k);
        }
        k = k + 1;
    }
    None
}

/// Tells whether the component is the core library.
pub fn is_core_component(c: &ComponentInfo) -> (r: bool)
    ensures
        r == is_core(*c),
{
    proof {
        reveal_strlit("core/src");
    }
    str_contains(c.source_path.as_str(), "core/src")
}

/// The linked libraries of a unit's components: one for each component that
/// is not the core library, in component order.
pub fn linked_libraries(components: &Vec<ComponentInfo>) -> (r: Vec<LinkedLibrary>)
    ensures
        libraries_view(r@) == linked_libraries_of(components@),
{
    let mut libs: Vec<LinkedLibrary> = Vec::new();
    let mut k: usize = 0;
    while k < components.len()
        invariant
            k <= components@.len(),
            libraries_view(libs@) == linked_libraries_of(components@.subrange(0, k as int)),
        decreases components@.len() - k,
    {
        let c = &components[k];
        proof {
            assert(components@.subrange(0, k + 1).drop_last() =~= components@.subrange(0, k as int));
            assert(components@.subrange(0, k + 1).last() == components@[k as int]);
        }
        if !is_core_component(c) {
            let ghost before = libs@;
            libs.push(LinkedLibrary { name: c.name.clone(), path: c.source_root.clone() });
            assert(libraries_view(libs@) =~= libraries_view(before).push(
                (c.name@, c.source_root@),
            ));
        }
        k = k + 1;
    }
    assert(components@.subrange(0, components@.len() as int) =~= components@);
    libs
}

/// The index of the first core-library component, if any.
fn find_corelib(components: &Vec<ComponentInfo>) -> (r: Option<usize>)
    ensures
        r is None <==> !has_core(components@),
        r matches Some(c) ==> is_first_core(components@, c as int),
{
    let mut k: usize = 0;
    while k < components.len()
        invariant
            k <= components@.len(),
            forall|q: int| 0 <= q < k ==> !is_core(#[trigger] components@[q]),
        decreases components@.len() - k,
    {
        if is_core_component(&components[k]) {
            return Some(k);
        }
        k = k + 1;
    }
    None
}

/// The result of resolving a package's dependencies, given the selected unit
/// `u`, the package `p` and the core component `c`.
pub open spec fn dependencies_match(
    d: PackageDependencies,
    units: Seq<CompilationUnitInfo>,
    pkgs: Seq<PackageInfo>,
    u: int,
    p: int,
    c: int,
) -> bool {
    &&& d.0@ == pkgs[p].root@
    &&& d.1@ == units[u].target.source_path@
    &&& d.2@ == units[u].components@[c].source_root@
    &&& libraries_view(d.3@) == linked_libraries_of(units[u].components@)
    &&& d.4@ == units[u].target.name@
}

/// Resolves what compiling the package needs: its root directory, the entry
/// file of its selected unit's target, the core library's source root (of
/// the first core component), the libraries it links (every other component,
/// in order) and the target's name.
///
/// Fails with `PackageNotFound` when no unit or no package has the id, and
/// with `CorelibNotFound` when the selected unit has no core component.
pub fn dependencies_for_package(metadata: &WorkspaceMetadata, package: &String) -> (r: Result<
    PackageDependencies,
    ScarbError,
>)
    ensures
        match r {
            Ok(d) => exists|u: int, p: int, c: int|
                #![trigger is_selected(metadata.compilation_units@, package@, u), is_first_package(metadata.packages@, package@, p), is_first_core(metadata.compilation_units@[u].components@, c)]
                is_selected(metadata.compilation_units@, package@, u) && is_first_package(
                    metadata.packages@,
                    package@,
                    p,
                ) && is_first_core(metadata.compilation_units@[u].components@, c)
                    && dependencies_match(
                    d,
                    metadata.compilation_units@,
                    metadata.packages@,
                    u,
                    p,
                    c,
                ),
            Err(ScarbError::PackageNotFound { package: id }) => id@ == package@ && (!has_unit(
                metadata.compilation_units@,
                package@,
            ) || !has_package(metadata.packages@, package@)),
            Err(ScarbError::CorelibNotFound) => has_package(metadata.packages@, package@) && exists|
                u: int,
            |
                is_selected(metadata.compilation_units@, package@, u) && !has_core(
                    metadata.compilation_units@[u].components@,
                ),
            Err(_) => false,
        },
        (has_unit(metadata.compilation_units@, package@) && has_package(
            metadata.packages@,
            package@,
        ) && forall|u: int|
            is_selected(metadata.compilation_units@, package@, u) ==> !has_core(
                #[trigger] metadata.compilation_units@[u].components@,
            )) ==> r matches Err(ScarbError::CorelibNotFound),
{
    let u = match select_unit(metadata, package) {
        Some(u) => u,
        None => {
            return Err(ScarbError::PackageNotFound { package: package.clone() });
        },
    };
    let p = match find_package(metadata, package) {
        Some(p) => p,
        None => {
            return Err(ScarbError::PackageNotFound { package: package.clone() });
        },
    };
    let unit = &metadata.compilation_units[u];
    let package_path = metadata.packages[p].root.clone();
    let dependencies = linked_libraries(&unit.components);
    let target_name = unit.target.name.clone();
    let lib_path = unit.target.source_path.clone();
    let c = match find_corelib(&unit.components) {
        Some(c) => c,
        None => {
            return Err(ScarbError::CorelibNotFound);
        },
    };
    let corelib_path = unit.components[c].source_root.clone();
    let d = (package_path, lib_path, corelib_path, dependencies, target_name);
    proof {
        assert(dependencies_match(
            d,
            metadata.compilation_units@,
            metadata.packages@,
            u as int,
            p as int,
            c as int,
        ));
        assert(has_core(metadata.compilation_units@[u as int].components@));
        assert(is_selected(metadata.compilation_units@, package@, u as int) && is_first_package(
            metadata.packages@,
            package@,
            p as int,
        ) && is_first_core(metadata.compilation_units@[u as int].components@, c as int)
            && dependencies_match(
            d,
            metadata.compilation_units@,
            metadata.packages@,
            u as int,
            p as int,
            c as int,
        ));
    }
    Ok(d)
}

/// The name of the tool whose section holds forge's options.
pub open spec fn forge_tool_name() -> Seq<char> {
    "snforge"@
}

/// The first section of the tool, if any, as forge's options.
pub open spec fn section_for(secs: Seq<ToolSection>, tool: Seq<char>) -> Option<
    Result<ForgeConfigFromScarb, String>,
>
    decreases secs.len(),
{
    if secs.len() == 0 {
        None
    } else if secs[0].tool@ == tool {
        Some(secs[0].forge_config)
    } else {
        section_for(secs.drop_first(), tool)
    }
}

/// The package's section for forge, if it has one.
fn find_forge_section(secs: &Vec<ToolSection>) -> (r: Option<&Result<ForgeConfigFromScarb, String>>)
    ensures
        match section_for(secs@, forge_tool_name()) {
            None => r is None,
            Some(c) => r == Some(&c),
        },
{
    let mut k: usize = 0;
    assert(secs@.subrange(0, secs@.len() as int) =~= secs@);
    while k < secs.len()
        invariant
            k <= secs@.len(),
            section_for(secs@, forge_tool_name()) == section_for(
                secs@.subrange(k as int, secs@.len() as int),
                forge_tool_name(),
            ),
        decreases secs@.len() - k,
    {
        let ghost rest = secs@.subrange(k as int, secs@.len() as int);
        assert(rest[0] == secs@[k as int]);
        if str_eq(secs[k].tool.as_str(), "snforge") {
            return Some(&secs[k].forge_config);
        }
        assert(rest.drop_first() =~= secs@.subrange(k + 1, secs@.len() as int));
        k = k + 1;
    }
    None
}

/// The configuration that resolution gives for a package's decoded
/// `[tool.snforge]` section.
pub open spec fn config_matches(
    section: Option<Result<ForgeConfigFromScarb, String>>,
    r: Result<ForgeConfigFromScarb, ScarbError>,
) -> bool {
    match section {
        None => r == Ok::<ForgeConfigFromScarb, ScarbError>(ForgeConfigFromScarb { exit_first: false }),
        Some(Ok(c)) => r == Ok::<ForgeConfigFromScarb, ScarbError>(c),
        Some(Err(m)) => r matches Err(ScarbError::ConfigInvalid { message }) && message@ == m@,
    }
}

/// The forge configuration of the package: the default (`exit_first` off)
/// when it has no `[tool.snforge]` section, the decoded section otherwise
/// (the first one, should the name repeat),
/// `ConfigInvalid` when the section could not be decoded, and
/// `PackageNotFound` when no package has the id.
pub fn config_from_scarb_for_package(metadata: &WorkspaceMetadata, package: &String) -> (r: Result<
    ForgeConfigFromScarb,
    ScarbError,
>)
    ensures
        r matches Err(ScarbError::PackageNotFound { package: id }) ==> id@ == package@,
        r matches Err(ScarbError::PackageNotFound { .. }) <==> !has_package(
            metadata.packages@,
            package@,
        ),
        forall|p: int|
            is_first_package(metadata.packages@, package@, p) ==> config_matches(
                section_for(#[trigger] metadata.packages@[p].tool_sections@, forge_tool_name()),
                r,
            ),
{
    let p = match find_package(metadata, package) {
        Some(p) => p,
        None => {
            return Err(ScarbError::PackageNotFound { package: package.clone() });
        },
    };
    let r = match find_forge_section(&metadata.packages[p].tool_sections) {
        None => Ok(ForgeConfigFromScarb::default()),
        Some(Ok(c)) => Ok(*c),
        Some(Err(m)) => Err(ScarbError::ConfigInvalid { message: m.clone() }),
    };
    proof {
        assert forall|q: int| is_first_package(metadata.packages@, package@, q) implies q == p by {
            if q < p {
                assert(metadata.packages@[q].id@ != package@);
            } else if p < q {
                assert(metadata.packages@[p as int].id@ != package@);
            }
        }
    }
    r
}

/// A package with a single compilation unit gets that unit, whatever its kind.
pub proof fn lemma_single_unit_selected(units: Seq<CompilationUnitInfo>, pkg: Seq<char>, j: int)
    requires
        belongs_to(units, pkg, j),
        forall|k: int| 0 <= k < units.len() && k != j ==> (#[trigger] units[k]).package@ != pkg,
    ensures
        is_selected(units, pkg, j),
        forall|i: int| is_selected(units, pkg, i) ==> i == j,
{
    assert forall|i: int| is_selected(units, pkg, i) implies i == j by {
        if i != j {
            let _ = units[i];
        }
    }
}

/// A package with both a contract unit and a library unit gets a contract unit.
pub proof fn lemma_contract_unit_preferred(
    units: Seq<CompilationUnitInfo>,
    pkg: Seq<char>,
    a: int,
    b: int,
)
    requires
        belongs_to(units, pkg, a),
        belongs_to(units, pkg, b),
        units[a].target.kind@ == "starknet-contract"@,
        units[b].target.kind@ == "lib"@,
    ensures
        forall|i: int| is_selected(units, pkg, i) ==> units[i].target.kind@ == "starknet-contract"@,
{
    assert forall|i: int| is_selected(units, pkg, i) implies units[i].target.kind@
        == "starknet-contract"@ by {
        let _ = units[a];
        if i != a && units[i].target.kind@ != "starknet-contract"@ {
            lemma_kind_before_total(unit_kind(units, i), unit_kind(units, a));
            assert(kind_before(unit_kind(units, a), unit_kind(units, i)));
        }
    }
}

/// Every linked library comes from a component that is not the core
/// library, and every such component gives one.
pub proof fn lemma_linked_libraries_exclude_core(cs: Seq<ComponentInfo>)
    ensures
        forall|k: int|
            0 <= k < linked_libraries_of(cs).len() ==> exists|j: int|
                0 <= j < cs.len() && !is_core(cs[j]) && #[trigger] linked_libraries_of(cs)[k] == (
                cs[j].name@,
                cs[j].source_root@,
            ),
        forall|j: int|
            0 <= j < cs.len() && !is_core(#[trigger] cs[j]) ==> linked_libraries_of(cs).contains(
                (cs[j].name@, cs[j].source_root@),
            ),
    decreases cs.len(),
{
    if cs.len() > 0 {
        let rest = cs.drop_last();
        lemma_linked_libraries_exclude_core(rest);
        let libs = linked_libraries_of(cs);
        let prev = linked_libraries_of(rest);
        assert forall|k: int| 0 <= k < libs.len() implies exists|j: int|
            0 <= j < cs.len() && !is_core(cs[j]) && #[trigger] libs[k] == (
                cs[j].name@,
                cs[j].source_root@,
            ) by {
            if k < prev.len() {
                let j = choose|j: int|
                    0 <= j < rest.len() && !is_core(rest[j]) && #[trigger] prev[k] == (
                        rest[j].name@,
                        rest[j].source_root@,
                    );
                assert(rest[j] == cs[j]);
            } else {
                assert(cs[cs.len() - 1] == cs.last());
            }
        }
        assert forall|j: int| 0 <= j < cs.len() && !is_core(#[trigger] cs[j]) implies libs.contains(
            (cs[j].name@, cs[j].source_root@),
        ) by {
            if j < cs.len() - 1 {
                assert(rest[j] == cs[j]);
                let k = choose|k: int| 0 <= k < prev.len() && prev[k] == (
                    rest[j].name@,
                    rest[j].source_root@,
                );
                assert(libs[k] == prev[k]);
            } else {
                assert(libs[libs.len() - 1] == (cs[j].name@, cs[j].source_root@));
            }
        }
    }
}

} // verus!
