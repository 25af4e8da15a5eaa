//! The metadata table: a map from wallpaper path to its recorded
//! orientation and modification time, held as a list of entries and
//! specified as a first-match association list.
use vstd::prelude::*;

verus! {

/// Orientation of an image, decided by comparing its pixel width and height.
#[derive(Clone, Copy, Debug, PartialEq, Eq, Structural)]
pub enum Orientation {
    Landscape,
    Portrait,
    Unknown,
}

/// What the table records for one wallpaper file: its orientation and the
/// modification time observed when that orientation was computed.
#[derive(Clone, Copy, Debug, PartialEq, Eq, Structural)]
pub struct WallpaperMeta {
    pub orientation: Orientation,
    pub mtime: u64,
}

/// One table row: a wallpaper path and what is recorded for it.
pub struct MetaEntry {
    pub path: String,
    pub meta: WallpaperMeta,
}

/// The metadata recorded under path `k`: the first entry of `s` whose path
/// reads `k`, if any. The table behaves as a map from path to metadata.
pub open spec fn table_get(s: Seq<MetaEntry>, k: Seq<char>) -> Option<WallpaperMeta>
    decreases s.len(),
{
    if s.len() == 0 {
        None
    } else if s[0].path@ == k {
        Some(s[0].meta)
    } else {
        table_get(s.drop_first(), k)
    }
}

/// Whether the path `k` occurs in the path list `seen`.
pub open spec fn path_listed(seen: Seq<Seq<char>>, k: Seq<char>) -> bool {
    exists|i: int| 0 <= i < seen.len() && seen[i] == k
}

/// If no entry of `s` carries path `k`, the table holds nothing under `k`.
pub proof fn lemma_table_get_absent(s: Seq<MetaEntry>, k: Seq<char>)
    requires
        forall|j: int| 0 <= j < s.len() ==> s[j].path@ != k,
    ensures
        table_get(s, k) is None,
    decreases s.len(),
{
    if s.len() > 0 {
        lemma_table_get_absent(s.drop_first(), k);
    }
}

/// Appending an entry leaves every recorded path as it was and records the
/// new entry's metadata under its path if that path was absent.
pub proof fn lemma_table_get_push(s: Seq<MetaEntry>, e: MetaEntry, k: Seq<char>)
    ensures
        table_get(s.push(e), k) == (if table_get(s, k) is Some {
            table_get(s, k)
        } else if k == e.path@ {
            Some(e.meta)
        } else {
            None::<WallpaperMeta>
        }),
    decreases s.len(),
{
    if s.len() == 0 {
        assert(s.push(e)[0] == e);
        assert(s.push(e).drop_first() =~= Seq::<MetaEntry>::empty());
        assert(table_get(Seq::<MetaEntry>::empty(), k) is None);
    } else {
        assert(s.push(e)[0] == s[0]);
        if s[0].path@ == k {
        } else {
            assert(s.push(e).drop_first() =~= s.drop_first().push(e));
            lemma_table_get_push(s.drop_first(), e, k);
        }
    }
}

/// Replacing the first entry that carries path `e.path@` by `e` records
/// `e.meta` under that path and leaves every other path as it was.
pub proof fn lemma_table_get_update(s: Seq<MetaEntry>, i: int, e: MetaEntry, k: Seq<char>)
    requires
        0 <= i < s.len(),
        forall|j: int| 0 <= j < i ==> s[j].path@ != e.path@,
        s[i].path@ == e.path@,
    ensures
        table_get(s.update(i, e), k) == (if k == e.path@ {
            Some(e.meta)
        } else {
            table_get(s, k)
        }),
    decreases i,
{
    let u = s.update(i, e);
    if i == 0 {
        assert(u[0] == e);
        if k == e.path@ {
        } else {
            assert(u.drop_first() =~= s.drop_first());
        }
    } else {
        assert(u[0] == s[0]);
        assert(s[0].path@ != e.path@);
        if s[0].path@ == k {
        } else {
            assert(u.drop_first() =~= s.drop_first().update(i - 1, e));
            lemma_table_get_update(s.drop_first(), i - 1, e, k);
        }
    }
}

/// The path→metadata table. Loaded at the start of a run, updated while
/// classifying, pruned to the paths seen by the scan, and persisted at the
/// end of the run.
pub struct MetaTable {
    entries: Vec<MetaEntry>,
}

impl View for MetaTable {
    type V = Seq<MetaEntry>;

    closed spec fn view(&self) -> Seq<MetaEntry> {
        self.entries@
    }
}

impl MetaTable {
    /// An empty table, as a missing or unreadable cache file yields.
    pub fn new() -> (r: MetaTable)
        ensures
            r@.len() == 0,
    {
        MetaTable { entries: Vec::new() }
    }

    /// The rows of the table, for persisting it.
    pub fn entries(&self) -> (r: &Vec<MetaEntry>)
        ensures
            r@ == self@,
    {
        &self.entries
    }

    /// The metadata recorded under `path`, if any.
    pub fn lookup(&self, path: &String) -> (r: Option<WallpaperMeta>)
        ensures
            r == table_get(self@, path@),
    {
        let n = self.entries.len();
        let mut i: usize = 0;
        proof {
            assert(self@.skip(0) =~= self@);
        }
        while i < n
            invariant
                i <= n,
                n == self@.len(),
                table_get(self@, path@) == table_get(self@.skip(i as int), path@),
            decreases n - i,
        {
            proof {
                assert(self@.skip(i as int)[0] == self@[i as int]);
            }
            if self.entries[i].path == *path {
                return Some(self.entries[i].meta);
            }
            proof {
                assert(self@.skip(i as int).drop_first() =~= self@.skip(i as int + 1));
            }
            i += 1;
        }
        proof {
            assert(self@.skip(n as int) =~= Seq::<MetaEntry>::empty());
        }
        None
    }

    /// Records `meta` under `path`, replacing what was recorded there and
    /// leaving every other path as it was.
    pub fn insert(&mut self, path: &String, meta: WallpaperMeta)
        ensures
            table_get(final(self)@, path@) == Some(meta),
            forall|k: Seq<char>| k != path@ ==> table_get(final(self)@, k) == table_get(
                old(self)@,
                k,
            ),
    {
        let n = self.entries.len();
        let mut i: usize = 0;
        while i < n
            invariant
                i <= n,
                n == self@.len(),
                self@ == old(self)@,
                forall|j: int| 0 <= j < i ==> self@[j].path@ != path@,
            decreases n - i,
        {
            if self.entries[i].path == *path {
                let e = MetaEntry { path: path.clone(), meta };
                proof {
                    assert forall|k: Seq<char>|
                        table_get(self@.update(i as int, e), k) == (if k == path@ {
                            Some(meta)
                        } else {
                            table_get(self@, k)
                        }) by {
                        lemma_table_get_update(self@, i as int, e, k);
                    }
                }
                vstd::pervasive::VecAdditionalExecFns::set(&mut self.entries, i, e);
                return ;
            }
            i += 1;
        }
        let e = MetaEntry { path: path.clone(), meta };
        proof {
            lemma_table_get_absent(self@, path@);
            assert forall|k: Seq<char>|
                table_get(self@.push(e), k) == (if k == path@ {
                    Some(meta)
                } else {
                    table_get(self@, k)
                }) by {
                lemma_table_get_push(self@, e, k);
            }
        }
        self.entries.push(e);
    }

    /// Drops every entry whose path is not in `seen`, leaving the rest as
    /// they were: after a scan the table holds no path the scan did not see.
    pub fn prune(&mut self, seen: &Vec<String>)
        ensures
            forall|k: Seq<char>| table_get(final(self)@, k) == (if path_listed(
                seen.deep_view(),
                k,
            ) {
                table_get(old(self)@, k)
            } else {
                None::<WallpaperMeta>
            }),
    {
        let n = self.entries.len();
        let mut kept: Vec<MetaEntry> = Vec::new();
        let mut i: usize = 0;
        while i < n
            invariant
                i <= n,
                n == self@.len(),
                self@ == old(self)@,
                forall|k: Seq<char>| table_get(kept@, k) == (if path_listed(
                    seen.deep_view(),
                    k,
                ) {
                    table_get(self@.take(i as int), k)
                } else {
                    None::<WallpaperMeta>
                }),
            decreases n - i,
        {
            let e = MetaEntry {
                path: self.entries[i].path.clone(),
                meta: self.entries[i].meta,
            };
            proof {
                assert(self@.take(i as int + 1) =~= self@.take(i as int).push(self@[i as int]));
            }
            if contains_path(seen, &self.entries[i].path) {
                proof {
                    assert forall|k: Seq<char>|
                        table_get(kept@.push(e), k) == (if path_listed(seen.deep_view(), k) {
                            table_get(self@.take(i as int + 1), k)
                        } else {
                            None::<WallpaperMeta>
                        }) by {
                        lemma_table_get_push(kept@, e, k);
                        lemma_table_get_push(self@.take(i as int), self@[i as int], k);
                    }
                }
                kept.push(e);
            } else {
                proof {
                    assert forall|k: Seq<char>|
                        table_get(kept@, k) == (if path_listed(seen.deep_view(), k) {
                            table_get(self@.take(i as int + 1), k)
                        } else {
                            None::<WallpaperMeta>
                        }) by {
                        lemma_table_get_push(self@.take(i as int), self@[i as int], k);
                    }
                }
            }
            i += 1;
        }
        proof {
            assert(self@.take(n as int) =~= self@);
        }
        self.entries = kept;
    }
}

/// Whether `path` occurs in `seen`, compared by contents.
pub fn contains_path(seen: &Vec<String>, path: &String) -> (r: bool)
    ensures
        r == path_listed(seen.deep_view(), path@),
{
    let n = seen.len();
    let mut i: usize = 0;
    while i < n
        invariant
            i <= n,
            n == seen@.len(),
            forall|j: int| 0 <= j < i ==> seen.deep_view()[j] != path@,
        decreases n - i,
    {
        if seen[i] == *path {
            proof {
                assert(seen.deep_view()[i as int] == path@);
            }
            return true;
        }
        i += 1;
    }
    false
}

} // verus!
