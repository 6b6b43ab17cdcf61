//! Data-driven mods.
//!
//! Mods may override authored data files.  They do not execute code.
//! Resolution is deterministic: active mods are consulted from the last one
//! to the first, and the first mod that overrides a file wins; without one
//! the base game's file is used.

use vstd::prelude::*;

use std::path::PathBuf;

use crate::canonical::texts;

verus! {

/// The standard library's owned filesystem path, carried through as is.
#[verifier::external_type_specification]
#[verifier::external_body]
pub struct ExPathBuf(std::path::PathBuf);

/// A mod's manifest.
#[derive(Debug, Clone, PartialEq, Eq)]
pub struct ModManifest {
    pub id: String,
    pub name: String,
    pub version: String,
    pub description: String,
    /// Relative paths of the base game files this mod overrides.
    pub overrides: Vec<String>,
}

/// Where the base game and the mods live, and which mods are active.
#[derive(Debug)]
pub struct ModLoader {
    pub base_data_dir: PathBuf,
    pub mods_dir: PathBuf,
    /// Active mod IDs in load order.
    pub active_mods: Vec<String>,
}

/// The manifest registered under `id`: when several manifests share an ID
/// the last one counts.
pub open spec fn manifest_for(ms: Seq<ModManifest>, id: Seq<char>) -> Option<ModManifest>
    decreases ms.len(),
{
    if ms.len() == 0 {
        None
    } else if ms.last().id@ == id {
        Some(ms.last())
    } else {
        manifest_for(ms.drop_last(), id)
    }
}

/// Whether a manifest lists `path` among its overrides.
pub open spec fn lists(m: ModManifest, path: Seq<char>) -> bool {
    exists|k: int| 0 <= k < m.overrides@.len() && (#[trigger] m.overrides@[k])@ == path
}

/// The active mods, last first, whose manifest overrides `path`.
pub open spec fn candidates(active: Seq<String>, ms: Seq<ModManifest>, path: Seq<char>) -> Seq<Seq<char>>
    decreases active.len(),
{
    if active.len() == 0 {
        Seq::empty()
    } else {
        let rest = candidates(active.drop_last(), ms, path);
        match manifest_for(ms, active.last()@) {
            Some(m) => if lists(m, path) {
                seq![active.last()@] + rest
            } else {
                rest
            },
            None => rest,
        }
    }
}

fn find_manifest(ms: &Vec<ModManifest>, id: &String) -> (r: Option<usize>)
    ensures
        match r {
            Some(i) => i < ms@.len() && manifest_for(ms@, id@) == Some(ms@[i as int]),
            None => manifest_for(ms@, id@) is None,
        },
{
    let mut i: usize = ms.len();
    proof {
        assert(ms@.take(ms@.len() as int) =~= ms@);
    }
    while i > 0
        invariant
            i <= ms@.len(),
            manifest_for(ms@, id@) == manifest_for(ms@.take(i as int), id@),
        decreases i,
    {
        proof {
            assert(ms@.take(i as int).drop_last() =~= ms@.take(i - 1));
        }
        if ms[i - 1].id == *id {
            return Some(i - 1);
        }
        i = i - 1;
    }
    None
}

fn manifest_lists(m: &ModManifest, path: &str) -> (b: bool)
    ensures
        b == lists(*m, path@),
{
    let p = path.to_owned();
    let mut k: usize = 0;
    while k < m.overrides.len()
        invariant
            p@ == path@,
            k <= m.overrides@.len(),
            forall|j: int| 0 <= j < k ==> (#[trigger] m.overrides@[j])@ != path@,
        decreases m.overrides@.len() - k,
    {
        if m.overrides[k] == p {
            return true;
        }
        k = k + 1;
    }
    false
}

impl ModLoader {
    /// A loader with no active mods.
    pub fn new(base_data_dir: PathBuf, mods_dir: PathBuf) -> (l: Self)
        ensures
            l.base_data_dir == base_data_dir,
            l.mods_dir == mods_dir,
            l.active_mods@.len() == 0,
    {
        ModLoader { base_data_dir, mods_dir, active_mods: Vec::new() }
    }

    /// The IDs of the active mods that override `relative_path`, in the
    /// order they are tried: the last active mod first.  `manifests` are
    /// the discovered manifests.
    pub fn override_candidates(&self, manifests: &Vec<ModManifest>, relative_path: &str) -> (r: Vec<String>)
        ensures
            r@.map_values(|s: String| s@) == candidates(self.active_mods@, manifests@, relative_path@),
    {
        let mut out: Vec<String> = Vec::new();
        let n = self.active_mods.len();
        let mut i: usize = n;
        proof {
            assert(self.active_mods@.take(n as int) =~= self.active_mods@);
        }
        while i > 0
            invariant
                n == self.active_mods@.len(),
                i <= n,
                out@.map_values(|s: String| s@) + candidates(self.active_mods@.take(i as int), manifests@, relative_path@)
                    == candidates(self.active_mods@, manifests@, relative_path@),
            decreases i,
        {
            let id = &self.active_mods[i - 1];
            let ghost pre = self.active_mods@.take(i as int);
            let ghost before = out@.map_values(|s: String| s@);
            proof {
                assert(pre.drop_last() =~= self.active_mods@.take(i - 1));
                assert(pre.last() == *id);
            }
            match find_manifest(manifests, id) {
                Some(j) => {
                    if manifest_lists(&manifests[j], relative_path) {
                        out.push(id.clone());
                        proof {
                            assert(out@.map_values(|s: String| s@) =~= before.push(id@));
                            assert(before.push(id@) + candidates(self.active_mods@.take(i - 1), manifests@, relative_path@)
                                =~= before + (seq![id@] + candidates(self.active_mods@.take(i - 1), manifests@, relative_path@)));
                        }
                    }
                },
                None => {},
            }
            i = i - 1;
        }
        proof {
            assert(self.active_mods@.take(0) =~= Seq::<String>::empty());
            assert(out@.map_values(|s: String| s@) + Seq::<Seq<char>>::empty() =~= out@.map_values(|s: String| s@));
        }
        out
    }
}


/// Where a data file is read from.
#[derive(Debug, Clone, PartialEq, Eq)]
pub enum FileSource {
    /// The path names the file itself: it is absolute.
    AsGiven,
    /// The file of the mod with this ID.
    Mod(String),
    /// The base game's file.
    Base,
}

/// The first candidate whose file exists, `exists[k]` telling whether the
/// `k`-th candidate's file does.
pub open spec fn first_present(cands: Seq<Seq<char>>, exists: Seq<bool>) -> Option<Seq<char>>
    decreases cands.len(),
{
    if cands.len() == 0 || exists.len() == 0 {
        None
    } else if exists[0] {
        Some(cands[0])
    } else {
        first_present(cands.drop_first(), exists.drop_first())
    }
}

/// `r` is where a file is read from: as given when its path is absolute;
/// else the first candidate mod whose file exists, named by its ID; else
/// the base game.
pub open spec fn is_source(r: FileSource, absolute: bool, cands: Seq<Seq<char>>, exists: Seq<bool>) -> bool {
    if absolute {
        r == FileSource::AsGiven
    } else {
        match first_present(cands, exists) {
            Some(id) => r matches FileSource::Mod(m) && m@ == id,
            None => r == FileSource::Base,
        }
    }
}

/// Picks where a file is read from, given whether its path is absolute,
/// the candidate mods in the order they are tried, and whether each
/// candidate's file exists.
pub fn pick_source(absolute: bool, candidates: &Vec<String>, exists: &Vec<bool>) -> (r: FileSource)
    requires
        exists@.len() == candidates@.len(),
    ensures
        is_source(r, absolute, texts(candidates@), exists@),
{
    if absolute {
        return FileSource::AsGiven;
    }
    let ghost cs = texts(candidates@);
    let mut i: usize = 0;
    proof {
        assert(cs.skip(0) =~= cs);
        assert(exists@.skip(0) =~= exists@);
    }
    while i < candidates.len()
        invariant
            !absolute,
            exists@.len() == candidates@.len(),
            cs == texts(candidates@),
            i <= candidates@.len(),
            first_present(cs, exists@) == first_present(cs.skip(i as int), exists@.skip(i as int)),
        decreases candidates@.len() - i,
    {
        proof {
            assert(cs.skip(i as int).drop_first() =~= cs.skip(i + 1));
            assert(exists@.skip(i as int).drop_first() =~= exists@.skip(i + 1));
        }
        if exists[i] {
            let id = candidates[i].clone();
            proof {
                assert(cs.skip(i as int)[0] == candidates@[i as int]@);
                assert(exists@.skip(i as int)[0]);
                assert(first_present(cs, exists@) == Some(candidates@[i as int]@));
            }
            let r = FileSource::Mod(id);
            proof {
                assert(r matches FileSource::Mod(m) && m@ == candidates@[i as int]@);
            }
            return r;
        }
        i = i + 1;
    }
    FileSource::Base
}

/// A path that is relative on every platform: it starts with neither `/`
/// nor `\` and holds no `:`, so it has neither a root nor a prefix.
pub open spec fn plainly_relative(p: Seq<char>) -> bool {
    &&& (p.len() == 0 || (p[0] != '/' && p[0] != '\\'))
    &&& forall|i: int| 0 <= i < p.len() ==> p[i] != ':'
}

/// Whether `path` is absolute, by `std::path::Path::is_absolute`.  What
/// counts as absolute depends on the platform: on Unix a path starting
/// with `/`, on Windows one with a prefix (a drive ending in `:`, or a
/// form starting with `\` or `/`).  Claimed only what holds on every
/// platform: a plainly relative path is not absolute.
#[verifier::external_body]
fn path_is_absolute(path: &str) -> (b: bool)
    ensures
        plainly_relative(path@) ==> !b,
{
    std::path::Path::new(path).is_absolute()
}

impl ModLoader {
    /// Where `relative_path` is read from, given the candidate mods in
    /// the order they are tried (see [`ModLoader::override_candidates`])
    /// and whether each candidate's file exists: the path as given when
    /// it is absolute, otherwise as [`pick_source`] says for a relative
    /// path.  A plainly relative path is relative on every platform.
    pub fn resolve_source(&self, relative_path: &str, candidates: &Vec<String>, exists: &Vec<bool>) -> (r: FileSource)
        requires
            exists@.len() == candidates@.len(),
        ensures
            r == FileSource::AsGiven || is_source(r, false, texts(candidates@), exists@),
            plainly_relative(relative_path@) ==> is_source(r, false, texts(candidates@), exists@),
    {
        let absolute = path_is_absolute(relative_path);
        pick_source(absolute, candidates, exists)
    }
}

} // verus!
