//! The artifact index that Scarb writes for a Starknet target, and the map
//! from contract name to compiled artifacts built from it.
use crate::error::ScarbError;
use crate::paths::{join_path, joined_path, parent_path, path_parent};
use crate::text::str_eq;
use vstd::prelude::*;
use vstd::string::StringExecFns;

verus! {

/// The paths of a contract's compiled forms, relative to the index's directory.
#[derive(Debug, Clone, PartialEq)]
pub struct StarknetContractArtifactPaths {
    pub sierra: String,
    pub casm: Option<String>,
}

/// One contract record of an artifact index.
#[derive(Debug, Clone, PartialEq)]
pub struct StarknetContract {
    pub id: String,
    pub package_name: String,
    pub contract_name: String,
    pub artifacts: StarknetContractArtifactPaths,
}

/// The contents of a `<target>.starknet_artifacts.json` index.
#[derive(Debug, Clone, PartialEq)]
pub struct StarknetArtifacts {
    pub version: u32,
    pub contracts: Vec<StarknetContract>,
}

/// The compiled forms of one contract, as text.
#[derive(Debug, Clone, PartialEq)]
pub struct StarknetContractArtifacts {
    pub sierra: String,
    pub casm: Option<String>,
}

/// A contract's artifacts as values: Sierra text and optional CASM text.
pub type ArtifactsView = (Seq<char>, Option<Seq<char>>);

impl View for StarknetContractArtifacts {
    type V = ArtifactsView;

    open spec fn view(&self) -> ArtifactsView {
        (self.sierra@, match self.casm {
            Some(c) => Some(c@),
            None => None,
        })
    }
}

/// Where a contract's compiled forms are to be read from.
#[derive(Debug, Clone, PartialEq)]
pub struct ContractFiles {
    pub contract_name: String,
    pub sierra_path: String,
    pub casm_path: Option<String>,
}

/// The map that inserting the pairs in order gives: a later pair replaces an
/// earlier one with the same key.
pub open spec fn pairs_map(ps: Seq<(Seq<char>, ArtifactsView)>) -> Map<Seq<char>, ArtifactsView>
    decreases ps.len(),
{
    if ps.len() == 0 {
        Map::empty()
    } else {
        pairs_map(ps.drop_last()).insert(ps.last().0, ps.last().1)
    }
}

pub open spec fn distinct_keys(ps: Seq<(Seq<char>, ArtifactsView)>) -> bool {
    forall|i: int, j: int| 0 <= i < ps.len() && 0 <= j < ps.len() && i != j ==> #[trigger] ps[i].0
        != #[trigger] ps[j].0
}

pub proof fn lemma_pairs_map_dom(ps: Seq<(Seq<char>, ArtifactsView)>, k: Seq<char>)
    ensures
        pairs_map(ps).dom().contains(k) <==> exists|i: int| 0 <= i < ps.len() && #[trigger] ps[i].0 == k,
    decreases ps.len(),
{
    if ps.len() > 0 {
        let rest = ps.drop_last();
        lemma_pairs_map_dom(rest, k);
        if exists|i: int| 0 <= i < ps.len() && #[trigger] ps[i].0 == k {
            let i = choose|i: int| 0 <= i < ps.len() && #[trigger] ps[i].0 == k;
            if i < ps.len() - 1 {
                assert(rest[i] == ps[i]);
            }
        }
        if exists|i: int| 0 <= i < rest.len() && #[trigger] rest[i].0 == k {
            let i = choose|i: int| 0 <= i < rest.len() && #[trigger] rest[i].0 == k;
            assert(ps[i] == rest[i]);
        }
    }
}

/// The value at a key is that of the last pair with the key.
pub proof fn lemma_pairs_map_last(ps: Seq<(Seq<char>, ArtifactsView)>, i: int)
    requires
        0 <= i < ps.len(),
        forall|j: int| i < j < ps.len() ==> #[trigger] ps[j].0 != ps[i].0,
    ensures
        pairs_map(ps).dom().contains(ps[i].0),
        pairs_map(ps)[ps[i].0] == ps[i].1,
    decreases ps.len(),
{
    if i < ps.len() - 1 {
        let rest = ps.drop_last();
        assert(rest[i] == ps[i]);
        assert forall|j: int| i < j < rest.len() implies #[trigger] rest[j].0 != rest[i].0 by {
            assert(rest[j] == ps[j]);
        }
        lemma_pairs_map_last(rest, i);
        assert(ps[ps.len() - 1].0 != ps[i].0);
    }
}

proof fn lemma_distinct_drop_last(ps: Seq<(Seq<char>, ArtifactsView)>)
    requires
        distinct_keys(ps),
        ps.len() > 0,
    ensures
        distinct_keys(ps.drop_last()),
        !pairs_map(ps.drop_last()).dom().contains(ps.last().0),
{
    let rest = ps.drop_last();
    assert forall|i: int, j: int|
        0 <= i < rest.len() && 0 <= j < rest.len() && i != j implies #[trigger] rest[i].0
        != #[trigger] rest[j].0 by {
        assert(rest[i] == ps[i] && rest[j] == ps[j]);
    }
    lemma_pairs_map_dom(rest, ps.last().0);
    if exists|i: int| 0 <= i < rest.len() && #[trigger] rest[i].0 == ps.last().0 {
        let i = choose|i: int| 0 <= i < rest.len() && #[trigger] rest[i].0 == ps.last().0;
        assert(rest[i] == ps[i]);
        assert(ps[ps.len() - 1].0 != ps[i].0);
    }
}

/// With distinct keys, the map has one entry for each pair.
pub proof fn lemma_pairs_map_len(ps: Seq<(Seq<char>, ArtifactsView)>)
    requires
        distinct_keys(ps),
    ensures
        pairs_map(ps).dom().finite(),
        pairs_map(ps).dom().len() == ps.len(),
    decreases ps.len(),
{
    if ps.len() > 0 {
        lemma_distinct_drop_last(ps);
        lemma_pairs_map_len(ps.drop_last());
    }
}

/// Replacing the value of a pair whose key occurs once replaces it in the map.
proof fn lemma_pairs_map_update(
    ps: Seq<(Seq<char>, ArtifactsView)>,
    j: int,
    p: (Seq<char>, ArtifactsView),
)
    requires
        distinct_keys(ps),
        0 <= j < ps.len(),
        ps[j].0 == p.0,
    ensures
        pairs_map(ps.update(j, p)) == pairs_map(ps).insert(p.0, p.1),
    decreases ps.len(),
{
    let qs = ps.update(j, p);
    let rest = ps.drop_last();
    if j == ps.len() - 1 {
        assert(qs.drop_last() =~= rest);
        assert(pairs_map(qs) =~= pairs_map(ps).insert(p.0, p.1));
    } else {
        lemma_distinct_drop_last(ps);
        assert(qs.drop_last() =~= rest.update(j, p));
        assert(rest[j] == ps[j]);
        lemma_pairs_map_update(rest, j, p);
        assert(ps[ps.len() - 1].0 != ps[j].0);
        assert(pairs_map(qs) =~= pairs_map(ps).insert(p.0, p.1));
    }
}

/// A map from contract name to the contract's artifacts.
#[derive(Debug, Clone)]
pub struct ContractsMap {
    entries: Vec<(String, StarknetContractArtifacts)>,
}

impl ContractsMap {
    pub closed spec fn pairs(&self) -> Seq<(Seq<char>, ArtifactsView)> {
        self.entries@.map_values(|e: (String, StarknetContractArtifacts)| (e.0@, e.1@))
    }

    /// Each contract name is held once.
    pub closed spec fn wf(&self) -> bool {
        distinct_keys(self.pairs())
    }

    pub closed spec fn view(&self) -> Map<Seq<char>, ArtifactsView> {
        pairs_map(self.pairs())
    }

    /// An empty map.
    pub fn new() -> (r: Self)
        ensures
            r.wf(),
            r.view() == Map::<Seq<char>, ArtifactsView>::empty(),
    {
        let r = ContractsMap { entries: Vec::new() };
        assert(r.pairs() =~= Seq::<(Seq<char>, ArtifactsView)>::empty());
        r
    }

    fn index_of(&self, name: &str) -> (r: Option<usize>)
        ensures
            match r {
                Some(i) => i < self.entries@.len() && self.pairs()[i as int].0 == name@,
                None => forall|i: int| 0 <= i < self.pairs().len() ==> #[trigger] self.pairs()[i].0 != name@,
            },
    {
        let mut k: usize = 0;
        while k < self.entries.len()
            invariant
                k <= self.entries@.len(),
                forall|i: int| 0 <= i < k ==> #[trigger] self.pairs()[i].0 != name@,
            decreases self.entries@.len() - k,
        {
            if str_eq(self.entries[k].0.as_str(), name) {
                return Some(k);
            }
            k = k + 1;
        }
        None
    }

    /// Sets the artifacts of a contract, replacing those it had.
    pub fn insert(&mut self, name: String, artifacts: StarknetContractArtifacts)
        requires
            old(self).wf(),
        ensures
            final(self).wf(),
            final(self).view() == old(self).view().insert(name@, artifacts@),
    {
        let ghost key = name@;
        let ghost value = artifacts@;
        match self.index_of(name.as_str()) {
            Some(i) => {
                let ghost before = self.pairs();
                self.entries.set(i, (name, artifacts));
                proof {
                    assert(self.pairs() =~= before.update(i as int, (key, value)));
                    lemma_pairs_map_update(before, i as int, (key, value));
                    assert forall|a: int, b: int|
                        0 <= a < self.pairs().len() && 0 <= b < self.pairs().len() && a != b implies #[trigger] self.pairs()[a].0
                        != #[trigger] self.pairs()[b].0 by {
                        assert(before[a].0 == self.pairs()[a].0);
                        assert(before[b].0 == self.pairs()[b].0);
                    }
                }
            },
            None => {
                let ghost before = self.pairs();
                self.entries.push((name, artifacts));
                proof {
                    assert(self.pairs() =~= before.push((key, value)));
                    assert(self.pairs().drop_last() =~= before);
                    assert forall|a: int, b: int|
                        0 <= a < self.pairs().len() && 0 <= b < self.pairs().len() && a != b implies #[trigger] self.pairs()[a].0
                        != #[trigger] self.pairs()[b].0 by {
                        if a < before.len() {
                            assert(before[a] == self.pairs()[a]);
                        }
                        if b < before.len() {
                            assert(before[b] == self.pairs()[b]);
                        }
                    }
                }
            },
        }
    }

    /// The artifacts of the contract, if the map holds it.
    pub fn get(&self, name: &str) -> (r: Option<&StarknetContractArtifacts>)
        requires
            self.wf(),
        ensures
            match r {
                Some(a) => self.view().dom().contains(name@) && self.view()[name@] == a@,
                None => !self.view().dom().contains(name@),
            },
    {
        proof {
            lemma_pairs_map_dom(self.pairs(), name@);
        }
        match self.index_of(name) {
            Some(i) => {
                proof {
                    lemma_pairs_map_last(self.pairs(), i as int);
                }
                Some(&self.entries[i].1)
            },
            None => None,
        }
    }

    /// Tells whether the map holds the contract.
    pub fn contains_key(&self, name: &str) -> (r: bool)
        ensures
            r == self.view().dom().contains(name@),
    {
        proof {
            lemma_pairs_map_dom(self.pairs(), name@);
        }
        self.index_of(name).is_some()
    }

    /// The number of contracts in the map.
    pub fn len(&self) -> (r: usize)
        requires
            self.wf(),
        ensures
            r == self.view().dom().len(),
    {
        proof {
            lemma_pairs_map_len(self.pairs());
        }
        self.entries.len()
    }
}

/// The name of the artifact index that Scarb writes for a target.
pub open spec fn artifacts_file_name_spec(target_name: Seq<char>) -> Seq<char> {
    target_name + ".starknet_artifacts.json"@
}

/// Scarb's output directory for the dev profile, under a project root.
pub open spec fn artifacts_dir_spec(root: Seq<char>) -> Seq<char> {
    joined_path(root, "target/dev"@)
}

/// The name of the artifact index that Scarb writes for a target.
pub fn artifacts_file_name(target_name: &str) -> (r: String)
    ensures
        r@ == artifacts_file_name_spec(target_name@),
{
    let mut s = String::from_str(target_name);
    s.append(".starknet_artifacts.json");
    s
}

/// The directory under a project root where Scarb writes dev artifacts.
pub fn artifacts_dir(root: &str) -> (r: String)
    ensures
        r@ == artifacts_dir_spec(root@),
{
    join_path(root, "target/dev")
}

/// What listing a directory gave.
#[derive(Debug, Clone, PartialEq)]
pub enum DirListing {
    /// The directory does not exist.
    Missing,
    /// The directory, or one of its entries, could not be read.
    Failed,
    /// The names of the files in the directory.
    Entries(Vec<String>),
}

/// The path of the target's artifact index under the project root, given
/// the listing of `artifacts_dir(root)`. `Ok(None)` when that directory does
/// not exist (the project was never built) or holds no file with the index's
/// name; `ReadDirFailed` when it could not be listed.
pub fn try_get_starknet_artifacts_path(
    root: &str,
    target_name: &str,
    listing: &DirListing,
) -> (r: Result<Option<String>, ScarbError>)
    ensures
        listing is Missing ==> r == Ok::<Option<String>, ScarbError>(None),
        listing is Failed ==> (r matches Err(ScarbError::ReadDirFailed { path }) && path@
            == artifacts_dir_spec(root@)),
        listing is Entries ==> (r matches Ok(found) && (found is Some <==> exists|i: int|
            0 <= i < listing->0@.len() && #[trigger] listing->0@[i]@ == artifacts_file_name_spec(
                target_name@,
            ))),
        r matches Ok(Some(p)) ==> p@ == joined_path(
            artifacts_dir_spec(root@),
            artifacts_file_name_spec(target_name@),
        ),
{
    match listing {
        DirListing::Missing => Ok(None),
        DirListing::Failed => Err(ScarbError::ReadDirFailed { path: artifacts_dir(root) }),
        DirListing::Entries(es) => {
            let wanted = artifacts_file_name(target_name);
            let mut k: usize = 0;
            while k < es.len()
                invariant
                    *listing == DirListing::Entries(*es),
                    wanted@ == artifacts_file_name_spec(target_name@),
                    k <= es@.len(),
                    forall|i: int| 0 <= i < k ==> #[trigger] es@[i]@ != wanted@,
                decreases es@.len() - k,
            {
                if str_eq(es[k].as_str(), wanted.as_str()) {
                    let dir = artifacts_dir(root);
                    let found = join_path(dir.as_str(), es[k].as_str());
                    assert(listing->0@[k as int]@ == artifacts_file_name_spec(target_name@));
                    return Ok(Some(found));
                }
                k = k + 1;
            }
            Ok(None)
        },
    }
}

/// The directory that holds the index at `index_path`, against which the
/// index's relative paths are resolved. Fails with `ParentNotFound` when the
/// path has no parent.
pub fn index_base_dir(index_path: &str) -> (r: Result<String, ScarbError>)
    ensures
        match r {
            Ok(b) => parent_path(index_path@) == Some(b@),
            Err(e) => parent_path(index_path@) is None && (e matches ScarbError::ParentNotFound {
                path,
            } && path@ == index_path@),
        },
{
    match path_parent(index_path) {
        Some(b) => Ok(b),
        None => Err(ScarbError::ParentNotFound { path: String::from_str(index_path) }),
    }
}

/// `f` names the files of contract `c`, whose paths are relative to `base`.
pub open spec fn files_match(f: ContractFiles, c: StarknetContract, base: Seq<char>) -> bool {
    &&& f.contract_name@ == c.contract_name@
    &&& f.sierra_path@ == joined_path(base, c.artifacts.sierra@)
    &&& match c.artifacts.casm {
        None => f.casm_path is None,
        Some(p) => (f.casm_path matches Some(q) && q@ == joined_path(base, p@)),
    }
}

/// The files to read for each contract of the index at `index_path`: its
/// relative paths resolved against the index's directory, in record order.
/// Fails with `ParentNotFound` when the index path has no parent.
pub fn contract_artifact_files(index_path: &str, artifacts: &StarknetArtifacts) -> (r: Result<
    Vec<ContractFiles>,
    ScarbError,
>)
    ensures
        match r {
            Ok(fs) => parent_path(index_path@) is Some && fs@.len() == artifacts.contracts@.len()
                && forall|i: int|
                0 <= i < fs@.len() ==> files_match(
                    #[trigger] fs@[i],
                    artifacts.contracts@[i],
                    parent_path(index_path@)->0,
                ),
            Err(e) => parent_path(index_path@) is None && (e matches ScarbError::ParentNotFound {
                path,
            } && path@ == index_path@),
        },
{
    let base = match index_base_dir(index_path) {
        Ok(b) => b,
        Err(e) => {
            return Err(e);
        },
    };
    let contracts = &artifacts.contracts;
    let mut files: Vec<ContractFiles> = Vec::new();
    let mut k: usize = 0;
    while k < contracts.len()
        invariant
            contracts@ == artifacts.contracts@,
            parent_path(index_path@) == Some(base@),
            k <= contracts@.len(),
            files@.len() == k,
            forall|i: int| 0 <= i < k ==> files_match(#[trigger] files@[i], contracts@[i], base@),
        decreases contracts@.len() - k,
    {
        let c = &contracts[k];
        let sierra_path = join_path(base.as_str(), c.artifacts.sierra.as_str());
        let casm_path = match &c.artifacts.casm {
            Some(p) => Some(join_path(base.as_str(), p.as_str())),
            None => None,
        };
        files.push(ContractFiles { contract_name: c.contract_name.clone(), sierra_path, casm_path });
        k = k + 1;
    }
    Ok(files)
}

/// The (name, artifacts) pair of each record, in record order.
pub open spec fn record_pairs(
    contracts: Seq<StarknetContract>,
    contents: Seq<StarknetContractArtifacts>,
) -> Seq<(Seq<char>, ArtifactsView)> {
    Seq::new(contracts.len(), |i: int| (contracts[i].contract_name@, contents[i]@))
}

/// The map from contract name to artifacts, given the artifacts read for
/// each record of the index (`contents[i]` for `artifacts.contracts[i]`); a
/// later record replaces an earlier one with the same name.
pub fn get_contracts_map(
    artifacts: &StarknetArtifacts,
    contents: &Vec<StarknetContractArtifacts>,
) -> (r: ContractsMap)
    requires
        contents@.len() == artifacts.contracts@.len(),
    ensures
        r.wf(),
        r.view() == pairs_map(record_pairs(artifacts.contracts@, contents@)),
{
    let ghost all = record_pairs(artifacts.contracts@, contents@);
    let mut map = ContractsMap::new();
    let mut k: usize = 0;
    while k < artifacts.contracts.len()
        invariant
            all == record_pairs(artifacts.contracts@, contents@),
            contents@.len() == artifacts.contracts@.len(),
            k <= contents@.len(),
            map.wf(),
            map.view() == pairs_map(all.subrange(0, k as int)),
        decreases contents@.len() - k,
    {
        map.insert(artifacts.contracts[k].contract_name.clone(), copy_artifacts(&contents[k]));
        assert(all.subrange(0, k + 1).drop_last() =~= all.subrange(0, k as int));
        k = k + 1;
    }
    assert(all.subrange(0, contents@.len() as int) =~= all);
    map
}

fn copy_artifacts(a: &StarknetContractArtifacts) -> (r: StarknetContractArtifacts)
    ensures
        r@ == a@,
{
    let casm = match &a.casm {
        Some(c) => Some(c.clone()),
        None => None,
    };
    StarknetContractArtifacts { sierra: a.sierra.clone(), casm }
}

/// Loading an index gives one entry for each distinct contract name, with
/// the artifacts of the last record that has that name; with names all
/// distinct, exactly one entry for each record, holding its artifacts.
pub proof fn lemma_contracts_map_round_trip(ps: Seq<(Seq<char>, ArtifactsView)>)
    ensures
        pairs_map(ps).dom().finite(),
        pairs_map(ps).dom().len() <= ps.len(),
        forall|i: int|
            0 <= i < ps.len() && (forall|j: int| i < j < ps.len() ==> ps[j].0 != ps[i].0)
                ==> #[trigger] pairs_map(ps)[ps[i].0] == ps[i].1 && pairs_map(ps).dom().contains(
                ps[i].0,
            ),
        forall|k: Seq<char>| #[trigger]
            pairs_map(ps).dom().contains(k) <==> exists|i: int| 0 <= i < ps.len() && #[trigger] ps[i].0 == k,
        distinct_keys(ps) ==> pairs_map(ps).dom().len() == ps.len(),
    decreases ps.len(),
{
    if ps.len() > 0 {
        lemma_contracts_map_round_trip(ps.drop_last());
    }
    assert forall|i: int|
        0 <= i < ps.len() && (forall|j: int| i < j < ps.len() ==> ps[j].0 != ps[i].0)
            implies #[trigger] pairs_map(ps)[ps[i].0] == ps[i].1 && pairs_map(ps).dom().contains(ps[i].0) by {
        assert forall|j: int| i < j < ps.len() implies #[trigger] ps[j].0 != ps[i].0 by {}
        lemma_pairs_map_last(ps, i);
    }
    assert forall|k: Seq<char>| #[trigger]
        pairs_map(ps).dom().contains(k) <==> exists|i: int| 0 <= i < ps.len() && #[trigger] ps[i].0 == k by {
        lemma_pairs_map_dom(ps, k);
    }
    if distinct_keys(ps) {
        lemma_pairs_map_len(ps);
    }
}

} // verus!
