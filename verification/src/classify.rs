//! The orientation classifier: the extension filter, the reading of the
//! dimension probe's output, and the per-file classification step that
//! keeps the metadata table fresh and routes each wallpaper into the
//! landscape or portrait list.
use vstd::prelude::*;
use vstd::string::StrSliceExecFns;
use crate::cache::{MetaEntry, MetaTable, Orientation, WallpaperMeta, path_listed, table_get};
use crate::numtext::{
    all_digits, char_is_ws, digits_val, is_ws, lemma_token_at, lemma_ws_prefix_at,
    parse_digits_range, token_len, ws_prefix_len,
};

verus! {

/// The lower-case code point of `c`: ASCII capital letters fold to lower
/// case, every other character is left as it is.
pub open spec fn lower_code(c: char) -> u32 {
    if 65 <= c as u32 && c as u32 <= 90 {
        (c as u32 + 32) as u32
    } else {
        c as u32
    }
}

/// Whether `s` ends with `suf`, folding `s` to lower case first.
pub open spec fn suffix_matches_ci(s: Seq<char>, suf: Seq<char>) -> bool {
    s.len() >= suf.len() && forall|i: int|
        0 <= i < suf.len() ==> lower_code(s[s.len() - suf.len() + i]) == suf[i] as u32
}

/// The fixed image filter: a path qualifies when it ends, in any letter
/// case, in one of the extensions jpg, jpeg, png, webp, jxl.
pub open spec fn allowed_image_path(s: Seq<char>) -> bool {
    ||| suffix_matches_ci(s, seq!['.', 'j', 'p', 'g'])
    ||| suffix_matches_ci(s, seq!['.', 'j', 'p', 'e', 'g'])
    ||| suffix_matches_ci(s, seq!['.', 'p', 'n', 'g'])
    ||| suffix_matches_ci(s, seq!['.', 'w', 'e', 'b', 'p'])
    ||| suffix_matches_ci(s, seq!['.', 'j', 'x', 'l'])
}

/// Whether `s` ends, case-insensitively, with the characters of `suf`.
fn ends_with_ci(s: &String, suf: &Vec<char>) -> (r: bool)
    ensures
        r == suffix_matches_ci(s@, suf@),
{
    let n = s.as_str().unicode_len();
    let m = suf.len();
    if n < m {
        return false;
    }
    let mut i: usize = 0;
    while i < m
        invariant
            i <= m,
            m == suf@.len(),
            n == s@.len(),
            n >= m,
            forall|j: int| 0 <= j < i ==> lower_code(s@[n - m + j]) == suf@[j] as u32,
        decreases m - i,
    {
        let c = s.as_str().get_char(n - m + i);
        let cu = c as u32;
        let low: u32 = if 65 <= cu && cu <= 90 {
            cu + 32
        } else {
            cu
        };
        proof {
            assert(low == lower_code(s@[n - m + i]));
        }
        if low != suf[i] as u32 {
            return false;
        }
        i += 1;
    }
    true
}

/// Whether `path` passes the image filter.
pub fn has_allowed_extension(path: &String) -> (r: bool)
    ensures
        r == allowed_image_path(path@),
{
    let jpg: Vec<char> = vec!['.', 'j', 'p', 'g'];
    let jpeg: Vec<char> = vec!['.', 'j', 'p', 'e', 'g'];
    let png: Vec<char> = vec!['.', 'p', 'n', 'g'];
    let webp: Vec<char> = vec!['.', 'w', 'e', 'b', 'p'];
    let jxl: Vec<char> = vec!['.', 'j', 'x', 'l'];
    proof {
        assert(jpg@ =~= seq!['.', 'j', 'p', 'g']);
        assert(jpeg@ =~= seq!['.', 'j', 'p', 'e', 'g']);
        assert(png@ =~= seq!['.', 'p', 'n', 'g']);
        assert(webp@ =~= seq!['.', 'w', 'e', 'b', 'p']);
        assert(jxl@ =~= seq!['.', 'j', 'x', 'l']);
    }
    ends_with_ci(path, &jpg) || ends_with_ci(path, &jpeg) || ends_with_ci(path, &png)
        || ends_with_ci(path, &webp) || ends_with_ci(path, &jxl)
}

/// The value a digit token denotes as a pixel size, if it fits.
pub open spec fn u32_of_digits(t: Seq<char>) -> Option<u32> {
    if t.len() > 0 && all_digits(t) && digits_val(t) <= u32::MAX {
        Some(digits_val(t) as u32)
    } else {
        None
    }
}

/// `s` with its leading whitespace removed.
pub open spec fn past_ws(s: Seq<char>) -> Seq<char> {
    s.skip(ws_prefix_len(s))
}

/// The first whitespace-separated token of `s`.
pub open spec fn first_token(s: Seq<char>) -> Seq<char> {
    past_ws(s).take(token_len(past_ws(s)))
}

/// What follows the first token of `s`.
pub open spec fn after_first_token(s: Seq<char>) -> Seq<char> {
    past_ws(s).skip(token_len(past_ws(s)))
}

/// The dimensions the probe's output reports: its first two
/// whitespace-separated tokens read as decimal pixel sizes.
pub open spec fn probe_dims_value(s: Seq<char>) -> Option<(u32, u32)> {
    match u32_of_digits(first_token(s)) {
        Some(w) => match u32_of_digits(first_token(after_first_token(s))) {
            Some(h) => Some((w, h)),
            None => None,
        },
        None => None,
    }
}

/// Reads `s[from..to]` as a pixel size.
fn parse_u32_range(s: &str, from: usize, to: usize) -> (r: Option<u32>)
    requires
        from <= to <= s@.len(),
    ensures
        r == u32_of_digits(s@.subrange(from as int, to as int)),
{
    let r = parse_digits_range(s, from, to);
    proof {
        if r is Some {
            crate::numtext::lemma_digits_val_nonneg(s@.subrange(from as int, to as int));
        }
    }
    match r {
        Some(v) => if v <= u32::MAX as u64 {
            Some(v as u32)
        } else {
            None
        },
        None => None,
    }
}

/// Reads the probe's output: its first two whitespace-separated tokens as
/// width and height.
pub fn parse_dims(s: &str) -> (r: Option<(u32, u32)>)
    ensures
        r == probe_dims_value(s@),
{
    let n = s.unicode_len();
    let mut a: usize = 0;
    loop
        invariant_except_break
            a <= n,
            n == s@.len(),
            forall|j: int| 0 <= j < a ==> is_ws(s@[j]),
        ensures
            a <= n,
            n == s@.len(),
            forall|j: int| 0 <= j < a ==> is_ws(s@[j]),
            a < n ==> !is_ws(s@[a as int]),
        decreases n - a,
    {
        if a >= n {
            break ;
        }
        if !char_is_ws(s.get_char(a)) {
            break ;
        }
        a += 1;
    }
    let mut e: usize = a;
    loop
        invariant_except_break
            a <= e <= n,
            n == s@.len(),
            forall|j: int| a <= j < e ==> !is_ws(s@[j]),
        ensures
            a <= e <= n,
            n == s@.len(),
            forall|j: int| a <= j < e ==> !is_ws(s@[j]),
            e < n ==> is_ws(s@[e as int]),
        decreases n - e,
    {
        if e >= n {
            break ;
        }
        if char_is_ws(s.get_char(e)) {
            break ;
        }
        e += 1;
    }
    proof {
        lemma_ws_prefix_at(s@, a as int);
        assert forall|j: int| 0 <= j < e - a implies !is_ws(s@.skip(a as int)[j]) by {
            assert(s@.skip(a as int)[j] == s@[a + j]);
        }
        if e - a < s@.skip(a as int).len() {
            assert(s@.skip(a as int)[e - a] == s@[e as int]);
        }
        lemma_token_at(s@.skip(a as int), e as int - a as int);
        assert(s@.skip(a as int).take(e - a) =~= s@.subrange(a as int, e as int));
        assert(first_token(s@) == s@.subrange(a as int, e as int));
        assert(after_first_token(s@) =~= s@.skip(e as int));
    }
    let w = match parse_u32_range(s, a, e) {
        Some(w) => w,
        None => {
            return None;
        },
    };
    let mut a2: usize = e;
    loop
        invariant_except_break
            e <= a2 <= n,
            n == s@.len(),
            forall|j: int| e <= j < a2 ==> is_ws(s@[j]),
        ensures
            e <= a2 <= n,
            n == s@.len(),
            forall|j: int| e <= j < a2 ==> is_ws(s@[j]),
            a2 < n ==> !is_ws(s@[a2 as int]),
        decreases n - a2,
    {
        if a2 >= n {
            break ;
        }
        if !char_is_ws(s.get_char(a2)) {
            break ;
        }
        a2 += 1;
    }
    let mut e2: usize = a2;
    loop
        invariant_except_break
            a2 <= e2 <= n,
            n == s@.len(),
            forall|j: int| a2 <= j < e2 ==> !is_ws(s@[j]),
        ensures
            a2 <= e2 <= n,
            n == s@.len(),
            forall|j: int| a2 <= j < e2 ==> !is_ws(s@[j]),
            e2 < n ==> is_ws(s@[e2 as int]),
        decreases n - e2,
    {
        if e2 >= n {
            break ;
        }
        if char_is_ws(s.get_char(e2)) {
            break ;
        }
        e2 += 1;
    }
    proof {
        let rest = s@.skip(e as int);
        assert forall|j: int| 0 <= j < a2 - e implies is_ws(rest[j]) by {
            assert(rest[j] == s@[e + j]);
        }
        if a2 - e < rest.len() {
            assert(rest[a2 - e] == s@[a2 as int]);
        }
        lemma_ws_prefix_at(rest, a2 as int - e as int);
        assert(rest.skip(a2 as int - e as int) =~= s@.skip(a2 as int));
        assert forall|j: int| 0 <= j < e2 - a2 implies !is_ws(s@.skip(a2 as int)[j]) by {
            assert(s@.skip(a2 as int)[j] == s@[a2 + j]);
        }
        if e2 - a2 < s@.skip(a2 as int).len() {
            assert(s@.skip(a2 as int)[e2 - a2] == s@[e2 as int]);
        }
        lemma_token_at(s@.skip(a2 as int), e2 as int - a2 as int);
        assert(s@.skip(a2 as int).take(e2 - a2) =~= s@.subrange(a2 as int, e2 as int));
        assert(first_token(after_first_token(s@)) == s@.subrange(a2 as int, e2 as int));
    }
    let h = match parse_u32_range(s, a2, e2) {
        Some(h) => h,
        None => {
            return None;
        },
    };
    Some((w, h))
}

/// Orientation from probed pixel dimensions: a tie counts as landscape.
pub open spec fn orientation_of_dims(w: u32, h: u32) -> Orientation {
    if w >= h {
        Orientation::Landscape
    } else {
        Orientation::Portrait
    }
}

/// Orientation from the probe's result, unknown when it gave none.
pub open spec fn orientation_of_probe(dims: Option<(u32, u32)>) -> Orientation {
    match dims {
        Some(d) => orientation_of_dims(d.0, d.1),
        None => Orientation::Unknown,
    }
}

/// Orientation from probed pixel dimensions.
pub fn classify_dims(w: u32, h: u32) -> (r: Orientation)
    ensures
        r == orientation_of_dims(w, h),
{
    if w >= h {
        Orientation::Landscape
    } else {
        Orientation::Portrait
    }
}

/// Orientation read from the probe's raw output, or unknown when the probe
/// failed or its output could not be read as two pixel sizes.
pub fn detect_orientation(output: Option<&str>) -> (r: Orientation)
    ensures
        r == (match output {
            Some(s) => orientation_of_probe(probe_dims_value(s@)),
            None => Orientation::Unknown,
        }),
{
    match output {
        Some(s) => match parse_dims(s) {
            Some(d) => classify_dims(d.0, d.1),
            None => Orientation::Unknown,
        },
        None => Orientation::Unknown,
    }
}

/// What the classifier does with one discovered file, given the table, the
/// path, and the file's current modification time.
pub open spec fn check_result(table: Seq<MetaEntry>, path: Seq<char>, mtime: Option<u64>) -> FileCheck {
    if !allowed_image_path(path) {
        FileCheck::NotImage
    } else {
        match mtime {
            None => FileCheck::NoMtime,
            Some(m) => match table_get(table, path) {
                Some(meta) => if meta.mtime == m {
                    FileCheck::Cached(meta.orientation)
                } else {
                    FileCheck::NeedsProbe
                },
                None => FileCheck::NeedsProbe,
            },
        }
    }
}

/// The classifier's answer for one discovered file: skip it, reuse the
/// cached orientation, or ask for a probe.
#[derive(Clone, Copy, Debug, PartialEq, Eq, Structural)]
pub enum FileCheck {
    /// The path does not pass the image filter.
    NotImage,
    /// The file's modification time could not be read.
    NoMtime,
    /// The cached entry is fresh; its orientation was reused.
    Cached(Orientation),
    /// No fresh cache entry: the file's dimensions must be probed.
    NeedsProbe,
}

/// A file that fails the extension filter is never classified: the check
/// ignores it, so (by `check_file`'s contract) it reaches neither output
/// list, the seen list, nor the table.
pub proof fn lemma_filtered_file_ignored(table: Seq<MetaEntry>, path: Seq<char>, mtime: Option<u64>)
    requires
        !allowed_image_path(path),
    ensures
        check_result(table, path, mtime) == FileCheck::NotImage,
{
}

/// Whether every path in `seen` passed the image filter. A pass starts
/// with an empty seen list and `check_file` records only filter-passing
/// paths, so the whole scan keeps this.
pub open spec fn seen_all_allowed(seen: Seq<Seq<char>>) -> bool {
    forall|i: int| 0 <= i < seen.len() ==> allowed_image_path(seen[i])
}

/// A file that fails the filter is absent from the pruned table, whatever
/// it held before: the scan records only filter-passing paths as seen,
/// and `finish` keeps no path outside the seen list.
pub proof fn lemma_filtered_file_absent_after_prune(
    before: Seq<MetaEntry>,
    after: Seq<MetaEntry>,
    seen: Seq<Seq<char>>,
    k: Seq<char>,
)
    requires
        seen_all_allowed(seen),
        !allowed_image_path(k),
        forall|q: Seq<char>| table_get(after, q) == (if path_listed(seen, q) {
            table_get(before, q)
        } else {
            None::<WallpaperMeta>
        }),
    ensures
        table_get(after, k) is None,
{
    if path_listed(seen, k) {
        let i = choose|i: int| 0 <= i < seen.len() && seen[i] == k;
        assert(allowed_image_path(seen[i]));
    }
    assert(table_get(after, k) == (if path_listed(seen, k) {
        table_get(before, k)
    } else {
        None::<WallpaperMeta>
    }));
}

/// The orientation rule: a width at least the height reads as landscape,
/// a smaller width as portrait; the tie goes to landscape.
pub proof fn lemma_orientation_rule(w: u32, h: u32)
    ensures
        w >= h ==> orientation_of_dims(w, h) == Orientation::Landscape,
        w < h ==> orientation_of_dims(w, h) == Orientation::Portrait,
        w == h ==> orientation_of_dims(w, h) == Orientation::Landscape,
{
}

/// Cache-hit determinism: a table entry whose recorded time equals the
/// file's current time answers the check by itself — the stored
/// orientation is reused, no probe is asked for, and (by `check_file`'s
/// contract) the table is left exactly as it was.
pub proof fn lemma_cache_hit_reuses_entry(
    table: Seq<MetaEntry>,
    path: Seq<char>,
    meta: WallpaperMeta,
    m: u64,
)
    requires
        allowed_image_path(path),
        table_get(table, path) == Some(meta),
        meta.mtime == m,
    ensures
        check_result(table, path, Some(m)) == FileCheck::Cached(meta.orientation),
{
}

/// Stale-entry pruning: a table standing in `finish`'s after-state
/// relation to the scan's seen list records nothing for any path the scan
/// did not see.
pub proof fn lemma_pruned_table_only_seen(
    before: Seq<MetaEntry>,
    after: Seq<MetaEntry>,
    seen: Seq<Seq<char>>,
)
    requires
        forall|k: Seq<char>| table_get(after, k) == (if path_listed(seen, k) {
            table_get(before, k)
        } else {
            None::<WallpaperMeta>
        }),
    ensures
        forall|k: Seq<char>| table_get(after, k) is Some ==> path_listed(seen, k),
{
}

/// The lists as they stand after routing a file of orientation `o`:
/// landscape and portrait files go to their list, unknown ones to neither.
pub open spec fn routed(
    landscape: Seq<Seq<char>>,
    portrait: Seq<Seq<char>>,
    o: Orientation,
    p: Seq<char>,
) -> (Seq<Seq<char>>, Seq<Seq<char>>) {
    match o {
        Orientation::Landscape => (landscape.push(p), portrait),
        Orientation::Portrait => (landscape, portrait.push(p)),
        Orientation::Unknown => (landscape, portrait),
    }
}

/// One classification pass over a wallpaper directory: the table carried
/// through it, the two orientation lists it builds, and the paths it has
/// seen, which the final pruning keeps.
pub struct ClassifyState {
    pub table: MetaTable,
    pub landscape: Vec<String>,
    pub portrait: Vec<String>,
    pub seen: Vec<String>,
}

impl ClassifyState {
    /// Starts a pass over the directory with the loaded table.
    pub fn begin(table: MetaTable) -> (s: ClassifyState)
        ensures
            s.table@ == table@,
            s.landscape.deep_view() == Seq::<Seq<char>>::empty(),
            s.portrait.deep_view() == Seq::<Seq<char>>::empty(),
            s.seen.deep_view() == Seq::<Seq<char>>::empty(),
    {
        let s = ClassifyState {
            table,
            landscape: Vec::new(),
            portrait: Vec::new(),
            seen: Vec::new(),
        };
        proof {
            assert(s.landscape.deep_view() =~= Seq::<Seq<char>>::empty());
            assert(s.portrait.deep_view() =~= Seq::<Seq<char>>::empty());
            assert(s.seen.deep_view() =~= Seq::<Seq<char>>::empty());
        }
        s
    }

    /// Routes a classified file into the list its orientation calls for.
    fn route(&mut self, path: &String, o: Orientation)
        ensures
            final(self).table@ == old(self).table@,
            final(self).seen.deep_view() == old(self).seen.deep_view(),
            (final(self).landscape.deep_view(), final(self).portrait.deep_view()) == routed(
                old(self).landscape.deep_view(),
                old(self).portrait.deep_view(),
                o,
                path@,
            ),
    {
        match o {
            Orientation::Landscape => {
                self.landscape.push(path.clone());
                proof {
                    assert(self.landscape.deep_view() =~= old(self).landscape.deep_view().push(
                        path@,
                    ));
                }
            },
            Orientation::Portrait => {
                self.portrait.push(path.clone());
                proof {
                    assert(self.portrait.deep_view() =~= old(self).portrait.deep_view().push(
                        path@,
                    ));
                }
            },
            Orientation::Unknown => {},
        }
    }

    /// Looks at one discovered file. A file that fails the filter is
    /// ignored; any other file counts as seen. With a fresh cache entry the
    /// stored orientation is reused and the file routed at once — no probe
    /// is called for, and the table is left untouched. Otherwise the caller
    /// is asked to probe the file and report back via `apply_probe`.
    pub fn check_file(&mut self, path: &String, mtime: Option<u64>) -> (r: FileCheck)
        ensures
            r == check_result(old(self).table@, path@, mtime),
            final(self).table@ == old(self).table@,
            final(self).seen.deep_view() == (if allowed_image_path(path@) {
                old(self).seen.deep_view().push(path@)
            } else {
                old(self).seen.deep_view()
            }),
            seen_all_allowed(old(self).seen.deep_view()) ==> seen_all_allowed(
                final(self).seen.deep_view(),
            ),
            (final(self).landscape.deep_view(), final(self).portrait.deep_view()) == (match r {
                FileCheck::Cached(o) => routed(
                    old(self).landscape.deep_view(),
                    old(self).portrait.deep_view(),
                    o,
                    path@,
                ),
                _ => (old(self).landscape.deep_view(), old(self).portrait.deep_view()),
            }),
    {
        if !has_allowed_extension(path) {
            return FileCheck::NotImage;
        }
        self.seen.push(path.clone());
        proof {
            assert(self.seen.deep_view() =~= old(self).seen.deep_view().push(path@));
            if seen_all_allowed(old(self).seen.deep_view()) {
                assert forall|i: int| 0 <= i < self.seen.deep_view().len() implies
                    allowed_image_path(self.seen.deep_view()[i]) by {
                    if i < old(self).seen.deep_view().len() {
                        assert(self.seen.deep_view()[i] == old(self).seen.deep_view()[i]);
                    } else {
                        assert(self.seen.deep_view()[i] == path@);
                    }
                }
            }
        }
        let m = match mtime {
            Some(m) => m,
            None => {
                return FileCheck::NoMtime;
            },
        };
        match self.table.lookup(path) {
            Some(meta) => {
                if meta.mtime == m {
                    self.route(path, meta.orientation);
                    FileCheck::Cached(meta.orientation)
                } else {
                    FileCheck::NeedsProbe
                }
            },
            None => FileCheck::NeedsProbe,
        }
    }

    /// Takes the probe's result for a file that `check_file` asked to have
    /// probed: a non-unknown orientation is recorded in the table under the
    /// file's current modification time, an unknown one is not recorded at
    /// all; the file is then routed by that orientation.
    pub fn apply_probe(&mut self, path: &String, mtime: u64, dims: Option<(u32, u32)>)
        ensures
            final(self).seen.deep_view() == old(self).seen.deep_view(),
            orientation_of_probe(dims) == Orientation::Unknown ==> final(self).table@ == old(
                self,
            ).table@,
            orientation_of_probe(dims) != Orientation::Unknown ==> table_get(
                final(self).table@,
                path@,
            ) == Some(
                WallpaperMeta { orientation: orientation_of_probe(dims), mtime },
            ) && (forall|k: Seq<char>| k != path@ ==> table_get(final(self).table@, k) == table_get(
                old(self).table@,
                k,
            )),
            (final(self).landscape.deep_view(), final(self).portrait.deep_view()) == routed(
                old(self).landscape.deep_view(),
                old(self).portrait.deep_view(),
                orientation_of_probe(dims),
                path@,
            ),
    {
        let o = match dims {
            Some(d) => classify_dims(d.0, d.1),
            None => Orientation::Unknown,
        };
        if !matches!(o, Orientation::Unknown) {
            self.table.insert(path, WallpaperMeta { orientation: o, mtime });
        }
        self.route(path, o);
    }

    /// Ends the pass: prunes the table down to the paths this scan saw, so
    /// it keeps no entry for a deleted or moved file.
    pub fn finish(&mut self)
        ensures
            final(self).seen.deep_view() == old(self).seen.deep_view(),
            final(self).landscape.deep_view() == old(self).landscape.deep_view(),
            final(self).portrait.deep_view() == old(self).portrait.deep_view(),
            forall|k: Seq<char>| table_get(final(self).table@, k) == (if path_listed(
                old(self).seen.deep_view(),
                k,
            ) {
                table_get(old(self).table@, k)
            } else {
                None::<WallpaperMeta>
            }),
    {
        let seen = &self.seen;
        self.table.prune(seen);
    }
}

} // verus!
