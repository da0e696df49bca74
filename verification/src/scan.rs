use vstd::prelude::*;

use crate::order::{comes_before, is_stable_descending, stable_order_descending};
use crate::text::{
    chars_of, contains, contains_exec, lower_text, text_lower, last_index_of, last_index_of_exec, skip_vec, spells,
    string_of, trim, trim_vec,
};

verus! {

/// A path under a folder that scans pass over: build output, dependencies and
/// the git directory (any path that mentions one of these names).
pub open spec fn is_generated_path(path: Seq<char>) -> bool {
    ||| contains(path, "node_modules"@)
    ||| contains(path, ".git"@)
    ||| contains(path, "target"@)
    ||| contains(path, "dist"@)
    ||| contains(path, "build"@)
}

/// A path that the content search passes over: generated paths and images.
pub open spec fn is_search_skipped_path(path: Seq<char>) -> bool {
    ||| is_generated_path(path)
    ||| contains(path, ".png"@)
    ||| contains(path, ".jpg"@)
}

fn mentions(path: &Vec<char>, word: &str) -> (r: bool)
    ensures
        r == contains(path@, word@),
{
    let w = chars_of(word);
    contains_exec(path, &w)
}

/// Whether the statistics, the list of recent files and the content search pass
/// over a path because it lies in build output, dependencies or the git directory.
pub fn is_generated(path: &str) -> (r: bool)
    ensures
        r == is_generated_path(path@),
{
    let p = chars_of(path);
    mentions(&p, "node_modules") || mentions(&p, ".git") || mentions(&p, "target") || mentions(
        &p,
        "dist",
    ) || mentions(&p, "build")
}

/// Whether the content search passes over a path.
pub fn is_search_skipped(path: &str) -> (r: bool)
    ensures
        r == is_search_skipped_path(path@),
{
    let p = chars_of(path);
    is_generated(path) || mentions(&p, ".png") || mentions(&p, ".jpg")
}

/// The extension of a file name, as `Path::extension` gives it: the text after
/// the last `.`, when that `.` is not the first character and the name is not `..`.
pub open spec fn extension(name: Seq<char>) -> Option<Seq<char>> {
    if name == ".."@ {
        None
    } else {
        match last_index_of(name, '.') {
            Some(k) => if k == 0 {
                None
            } else {
                Some(name.skip(k + 1))
            },
            None => None,
        }
    }
}

/// The extension of a file name.
pub fn extension_of(name: &str) -> (r: Option<String>)
    ensures
        match extension(name@) {
            Some(e) => r matches Some(x) && x@ == e,
            None => r is None,
        },
{
    let n = chars_of(name);
    if spells(&n, "..") {
        return None;
    }
    match last_index_of_exec(&n, '.') {
        Some(k) => if k == 0 {
            None
        } else {
            Some(string_of(&skip_vec(&n, k + 1)))
        },
        None => None,
    }
}

/// What a scan learned of one file.
#[derive(Debug, PartialEq, Eq)]
pub struct FileRecord {
    /// The file's path, as it is shown.
    pub path: String,
    /// The file's name (the last component of its path).
    pub name: String,
    /// Its size in bytes, when its metadata could be read.
    pub size: Option<u64>,
    /// Its number of lines, when it could be opened.
    pub lines: Option<usize>,
}

/// Statistics of a project folder.
#[derive(Debug, PartialEq, Eq)]
pub struct ProjectStats {
    pub total_files: usize,
    pub total_lines: usize,
    /// Each extension with the number of files that have it, in the order in
    /// which the extensions were first met. A list of pairs with distinct keys
    /// rather than a map: a map keyed by text gives the proofs nothing to
    /// reason with, and a hash map is walked in a different order on each run.
    pub file_types: Vec<(String, usize)>,
    /// Path and size of each file whose size is known, largest first (files of
    /// equal size in the order in which they were met).
    pub largest_files: Vec<(String, u64)>,
}

/// The records of the files that the statistics count.
pub open spec fn counted(files: Seq<FileRecord>) -> Seq<FileRecord>
    decreases files.len(),
{
    if files.len() == 0 {
        seq![]
    } else {
        let rest = counted(files.drop_last());
        if is_generated_path(files.last().path@) {
            rest
        } else {
            rest.push(files.last())
        }
    }
}

/// The number of lines of the given files whose line count is known.
pub open spec fn total_lines(files: Seq<FileRecord>) -> int
    decreases files.len(),
{
    if files.len() == 0 {
        0
    } else {
        total_lines(files.drop_last()) + match files.last().lines {
            Some(n) => n as int,
            None => 0,
        }
    }
}

/// Where `key` stands among the keys of a tally.
pub open spec fn tally_index(t: Seq<(Seq<char>, nat)>, key: Seq<char>) -> Option<int>
    decreases t.len(),
{
    if t.len() == 0 {
        None
    } else if t.last().0 == key {
        Some(t.len() - 1)
    } else {
        tally_index(t.drop_last(), key)
    }
}

/// A tally with one more occurrence of `key`.
pub open spec fn tally_add(t: Seq<(Seq<char>, nat)>, key: Seq<char>) -> Seq<(Seq<char>, nat)> {
    match tally_index(t, key) {
        Some(k) => t.update(k, (key, t[k].1 + 1)),
        None => t.push((key, 1)),
    }
}

/// The extensions of the given files, each with its number of files, in the
/// order of first appearance.
pub open spec fn extension_tally(files: Seq<FileRecord>) -> Seq<(Seq<char>, nat)>
    decreases files.len(),
{
    if files.len() == 0 {
        seq![]
    } else {
        let rest = extension_tally(files.drop_last());
        match extension(files.last().name@) {
            Some(e) => tally_add(rest, e),
            None => rest,
        }
    }
}

/// Path and size of the given files whose size is known, in order.
pub open spec fn sized(files: Seq<FileRecord>) -> Seq<(Seq<char>, u64)>
    decreases files.len(),
{
    if files.len() == 0 {
        seq![]
    } else {
        let rest = sized(files.drop_last());
        match files.last().size {
            Some(s) => rest.push((files.last().path@, s)),
            None => rest,
        }
    }
}

/// The sizes of a list of sized paths, as sort keys.
pub open spec fn size_keys(s: Seq<(Seq<char>, u64)>) -> Seq<i128> {
    s.map_values(|e: (Seq<char>, u64)| e.1 as i128)
}

/// `out` holds the entries of `items`, arranged by `ord`.
pub open spec fn arranged<T>(items: Seq<T>, ord: Seq<usize>, out: Seq<T>) -> bool {
    &&& out.len() == ord.len()
    &&& forall|k: int| 0 <= k < ord.len() ==> #[trigger] out[k] == items[ord[k] as int]
}

/// The plain value of a tally of extensions.
pub open spec fn tally_view(t: Seq<(String, usize)>) -> Seq<(Seq<char>, nat)> {
    t.map_values(|e: (String, usize)| (e.0@, e.1 as nat))
}

/// The plain value of a list of sized paths.
pub open spec fn sized_view(t: Seq<(String, u64)>) -> Seq<(Seq<char>, u64)> {
    t.map_values(|e: (String, u64)| (e.0@, e.1))
}

fn tally_add_exec(t: &mut Vec<(String, usize)>, key: String, bound: usize)
    requires
        bound >= 1,
        forall|k: int| 0 <= k < old(t)@.len() ==> #[trigger] old(t)@[k].1 < bound,
    ensures
        tally_view(final(t)@) == tally_add(tally_view(old(t)@), key@),
        forall|k: int| 0 <= k < final(t)@.len() ==> #[trigger] final(t)@[k].1 <= bound,
{
    let ghost tv = tally_view(t@);
    let mut i: usize = t.len();
    proof {
        assert(tv.take(i as int) =~= tv);
    }
    while i > 0
        invariant
            i <= t@.len(),
            tv == tally_view(t@),
            bound >= 1,
            t@ == old(t)@,
            forall|k: int| 0 <= k < t@.len() ==> #[trigger] t@[k].1 < bound,
            tally_index(tv, key@) == tally_index(tv.take(i as int), key@),
        decreases i,
    {
        proof {
            assert(tv.take(i as int).drop_last() =~= tv.take(i - 1));
            assert(tv.take(i as int).last() == tv[i - 1]);
        }
        let same = {
            let a = chars_of(t[i - 1].0.as_str());
            let b = chars_of(key.as_str());
            crate::text::same_chars(&a, &b)
        };
        if same {
            proof {
                assert(tv[i - 1].0 == key@);
                assert(tally_index(tv, key@) == Some(i - 1));
            }
            let count = t[i - 1].1;
            let ghost old_t = t@;
            t.set(i - 1, (key, count + 1));
            proof {
                assert(tally_view(t@) =~= tv.update(i - 1, (key@, tv[i - 1].1 + 1)));
                assert forall|k: int| 0 <= k < t@.len() implies #[trigger] t@[k].1 <= bound by {
                    if k != i - 1 {
                        assert(t@[k] == old_t[k]);
                    }
                }
            }
            return;
        }
        i = i - 1;
    }
    proof {
        assert(tv.take(0).len() == 0);
    }
    let ghost old_t = t@;
    t.push((key, 1));
    proof {
        assert(tally_view(t@) =~= tv.push((key@, 1)));
        assert forall|k: int| 0 <= k < t@.len() implies #[trigger] t@[k].1 <= bound by {
            if k < old_t.len() {
                assert(t@[k] == old_t[k]);
            }
        }
    }
}

/// The statistics of a project folder from the records of the files that a walk
/// found: files in generated paths are left out; the others are counted, their
/// lines added up, their extensions tallied, and the sized ones listed from
/// largest to smallest. `None` when the number of lines does not fit in a `usize`.
pub fn project_stats(files: &Vec<FileRecord>) -> (r: Option<ProjectStats>)
    ensures
        total_lines(counted(files@)) > usize::MAX ==> r is None,
        total_lines(counted(files@)) <= usize::MAX ==> (r matches Some(st) && {
            &&& st.total_files == counted(files@).len()
            &&& st.total_files == records_outside_generated(files@)
            &&& st.total_lines == total_lines(counted(files@))
            &&& st.total_lines == lines_outside_generated(files@)
            &&& tally_view(st.file_types@) == extension_tally(counted(files@))
            &&& exists|ord: Seq<usize>|
                is_stable_descending(size_keys(sized(counted(files@))), ord) && arranged(
                    sized(counted(files@)),
                    ord,
                    sized_view(st.largest_files@),
                )
            &&& forall|i: int, j: int|
                0 <= i < j < st.largest_files@.len() ==> #[trigger] st.largest_files@[i].1
                    >= #[trigger] st.largest_files@[j].1
        }),
{
    proof {
        law_stats_count_every_file(files@);
    }
    let ghost fs = files@;
    let mut total_files: usize = 0;
    let mut lines_sum: usize = 0;
    let mut overflow = false;
    let mut file_types: Vec<(String, usize)> = Vec::new();
    let mut sized_files: Vec<(String, u64)> = Vec::new();
    let mut i: usize = 0;
    proof {
        assert(fs.take(0) =~= Seq::<FileRecord>::empty());
        assert(tally_view(file_types@) =~= Seq::<(Seq<char>, nat)>::empty());
        assert(sized_view(sized_files@) =~= Seq::<(Seq<char>, u64)>::empty());
    }
    while i < files.len()
        invariant
            i <= files@.len(),
            fs == files@,
            total_files == counted(fs.take(i as int)).len(),
            total_files <= i,
            !overflow ==> lines_sum == total_lines(counted(fs.take(i as int))),
            overflow ==> total_lines(counted(fs.take(i as int))) > usize::MAX,
            tally_view(file_types@) == extension_tally(counted(fs.take(i as int))),
            forall|k: int| 0 <= k < file_types@.len() ==> #[trigger] file_types@[k].1 <= total_files,
            sized_view(sized_files@) == sized(counted(fs.take(i as int))),
        decreases files@.len() - i,
    {
        let ghost prev = counted(fs.take(i as int));
        proof {
            assert(fs.take(i + 1).drop_last() =~= fs.take(i as int));
            assert(fs.take(i + 1).last() == fs[i as int]);
        }
        let f = &files[i];
        if !is_generated(f.path.as_str()) {
            proof {
                assert(counted(fs.take(i + 1)) == prev.push(fs[i as int]));
                assert(prev.push(fs[i as int]).drop_last() =~= prev);
            }
            total_files = total_files + 1;
            match f.lines {
                Some(n) => {
                    if !overflow {
                        match lines_sum.checked_add(n) {
                            Some(t) => {
                                lines_sum = t;
                            },
                            None => {
                                overflow = true;
                            },
                        }
                    }
                },
                None => {},
            }
            match extension_of(f.name.as_str()) {
                Some(e) => {
                    tally_add_exec(&mut file_types, e, total_files);
                },
                None => {},
            }
            match f.size {
                Some(s) => {
                    let ghost old_sized = sized_files@;
                    sized_files.push((f.path.clone(), s));
                    proof {
                        assert(sized_view(sized_files@) =~= sized_view(old_sized).push(
                            (f.path@, s),
                        ));
                    }
                },
                None => {},
            }
        }
        i = i + 1;
    }
    proof {
        assert(fs.take(i as int) =~= fs);
    }
    if overflow {
        return None;
    }
    let mut keys: Vec<i128> = Vec::new();
    let mut k: usize = 0;
    while k < sized_files.len()
        invariant
            k <= sized_files@.len(),
            keys@.len() == k,
            forall|j: int| 0 <= j < k ==> #[trigger] keys@[j] == sized_files@[j].1 as i128,
        decreases sized_files@.len() - k,
    {
        keys.push(sized_files[k].1 as i128);
        k = k + 1;
    }
    proof {
        assert(keys@ =~= size_keys(sized_view(sized_files@)));
    }
    let ord = stable_order_descending(&keys);
    let mut largest: Vec<(String, u64)> = Vec::new();
    let mut j: usize = 0;
    while j < ord.len()
        invariant
            j <= ord@.len(),
            is_stable_descending(keys@, ord@),
            keys@.len() == sized_files@.len(),
            largest@.len() == j,
            forall|q: int|
                0 <= q < j ==> #[trigger] largest@[q].0@ == sized_files@[ord@[q] as int].0@
                    && largest@[q].1 == sized_files@[ord@[q] as int].1,
        decreases ord@.len() - j,
    {
        let idx = ord[j];
        let entry = (sized_files[idx].0.clone(), sized_files[idx].1);
        let ghost old_largest = largest@;
        largest.push(entry);
        proof {
            assert forall|q: int| 0 <= q < j + 1 implies #[trigger] largest@[q].0@ == sized_files@[ord@[q] as int].0@
                && largest@[q].1 == sized_files@[ord@[q] as int].1 by {
                if q < j {
                    assert(largest@[q] == old_largest[q]);
                }
            }
        }
        j = j + 1;
    }
    proof {
        let sv = sized_view(sized_files@);
        let lv = sized_view(largest@);
        assert forall|q: int| 0 <= q < ord@.len() implies #[trigger] lv[q] == sv[ord@[q] as int] by {
            assert(largest@[q].0@ == sized_files@[ord@[q] as int].0@);
        }
        assert(arranged(sv, ord@, lv));
        assert forall|a: int, b: int| 0 <= a < b < largest@.len() implies #[trigger] largest@[a].1 >= #[trigger] largest@[b].1 by {
            assert(comes_before(keys@, ord@[a] as int, ord@[b] as int));
            assert(largest@[a].0@ == sized_files@[ord@[a] as int].0@);
            assert(largest@[b].0@ == sized_files@[ord@[b] as int].0@);
            assert(keys@[ord@[a] as int] == sized_files@[ord@[a] as int].1 as i128);
            assert(keys@[ord@[b] as int] == sized_files@[ord@[b] as int].1 as i128);
        }
    }
    Some(
        ProjectStats {
            total_files,
            total_lines: lines_sum,
            file_types,
            largest_files: largest,
        },
    )
}


/// A file met by a walk, with the time it was last changed (in nanoseconds
/// from the Unix epoch; negative before it).
#[derive(Debug, PartialEq, Eq)]
pub struct TimedFile {
    pub path: String,
    pub modified: i128,
}

/// How many files the list of recent files shows.
pub open spec fn recent_limit() -> nat {
    10
}

/// The files that the list of recent files considers, in order.
pub open spec fn recent_candidates(files: Seq<TimedFile>) -> Seq<(Seq<char>, i128)>
    decreases files.len(),
{
    if files.len() == 0 {
        seq![]
    } else {
        let rest = recent_candidates(files.drop_last());
        if is_generated_path(files.last().path@) {
            rest
        } else {
            rest.push((files.last().path@, files.last().modified))
        }
    }
}

/// The change times of the candidates, as sort keys.
pub open spec fn time_keys(s: Seq<(Seq<char>, i128)>) -> Seq<i128> {
    s.map_values(|e: (Seq<char>, i128)| e.1)
}

/// The plain value of a list of timed files.
pub open spec fn timed_view(t: Seq<TimedFile>) -> Seq<(Seq<char>, i128)> {
    t.map_values(|e: TimedFile| (e.path@, e.modified))
}

/// The most recently changed files: files in generated paths are left out, the
/// others are ordered from the latest change to the earliest (files changed at
/// the same time in the order in which they were met), and the first ten are kept.
pub fn recent_files(files: &Vec<TimedFile>) -> (r: Vec<TimedFile>)
    ensures
        exists|ord: Seq<usize>|
            is_stable_descending(time_keys(recent_candidates(files@)), ord) && arranged(
                recent_candidates(files@),
                ord.take(r@.len() as int),
                timed_view(r@),
            ),
        r@.len() == if recent_candidates(files@).len() < recent_limit() {
            recent_candidates(files@).len()
        } else {
            recent_limit()
        },
        r@.len() == if timed_outside_generated(files@) < 10 {
            timed_outside_generated(files@)
        } else {
            10
        },
        forall|i: int, j: int| 0 <= i < j < r@.len() ==> #[trigger] r@[i].modified >= #[trigger] r@[j].modified,
{
    proof {
        lemma_recent_count(files@);
    }
    let ghost fs = files@;
    let mut cands: Vec<TimedFile> = Vec::new();
    let mut i: usize = 0;
    proof {
        assert(fs.take(0) =~= Seq::<TimedFile>::empty());
        assert(timed_view(cands@) =~= Seq::<(Seq<char>, i128)>::empty());
    }
    while i < files.len()
        invariant
            i <= files@.len(),
            fs == files@,
            timed_view(cands@) == recent_candidates(fs.take(i as int)),
        decreases files@.len() - i,
    {
        proof {
            assert(fs.take(i + 1).drop_last() =~= fs.take(i as int));
            assert(fs.take(i + 1).last() == fs[i as int]);
        }
        if !is_generated(files[i].path.as_str()) {
            let ghost old_c = cands@;
            cands.push(TimedFile { path: files[i].path.clone(), modified: files[i].modified });
            proof {
                assert(timed_view(cands@) =~= timed_view(old_c).push(
                    (fs[i as int].path@, fs[i as int].modified),
                ));
            }
        }
        i = i + 1;
    }
    proof {
        assert(fs.take(i as int) =~= fs);
    }
    let ghost cv = timed_view(cands@);
    let mut keys: Vec<i128> = Vec::new();
    let mut k: usize = 0;
    while k < cands.len()
        invariant
            k <= cands@.len(),
            keys@.len() == k,
            forall|j: int| 0 <= j < k ==> #[trigger] keys@[j] == cands@[j].modified,
        decreases cands@.len() - k,
    {
        keys.push(cands[k].modified);
        k = k + 1;
    }
    proof {
        assert(keys@ =~= time_keys(cv));
    }
    let ord = stable_order_descending(&keys);
    let count: usize = if cands.len() < 10 {
        cands.len()
    } else {
        10
    };
    let mut out: Vec<TimedFile> = Vec::new();
    let mut j: usize = 0;
    while j < count
        invariant
            j <= count,
            count <= ord@.len(),
            ord@.len() == cands@.len(),
            is_stable_descending(keys@, ord@),
            out@.len() == j,
            forall|q: int|
                0 <= q < j ==> #[trigger] out@[q].path@ == cands@[ord@[q] as int].path@
                    && out@[q].modified == cands@[ord@[q] as int].modified,
        decreases count - j,
    {
        let idx = ord[j];
        let ghost old_out = out@;
        out.push(TimedFile { path: cands[idx].path.clone(), modified: cands[idx].modified });
        proof {
            assert forall|q: int| 0 <= q < j + 1 implies #[trigger] out@[q].path@ == cands@[ord@[q] as int].path@
                && out@[q].modified == cands@[ord@[q] as int].modified by {
                if q < j {
                    assert(out@[q] == old_out[q]);
                }
            }
        }
        j = j + 1;
    }
    proof {
        let ov = timed_view(out@);
        let pre = ord@.take(count as int);
        assert forall|q: int| 0 <= q < pre.len() implies #[trigger] ov[q] == cv[pre[q] as int] by {
            assert(out@[q].path@ == cands@[ord@[q] as int].path@);
        }
        assert(arranged(cv, pre, ov));
        assert forall|a: int, b: int| 0 <= a < b < out@.len() implies #[trigger] out@[a].modified >= #[trigger] out@[b].modified by {
            assert(comes_before(keys@, ord@[a] as int, ord@[b] as int));
            assert(out@[a].path@ == cands@[ord@[a] as int].path@);
            assert(out@[b].path@ == cands@[ord@[b] as int].path@);
            assert(keys@[ord@[a] as int] == cands@[ord@[a] as int].modified);
            assert(keys@[ord@[b] as int] == cands@[ord@[b] as int].modified);
        }
    }
    out
}

/// A line of a file that holds the searched text.
#[derive(Debug, PartialEq, Eq)]
pub struct SearchMatch {
    pub file: String,
    /// The line's number, counted from 1.
    pub line: usize,
    /// The line without its surrounding whitespace.
    pub content: String,
}

impl View for SearchMatch {
    type V = (Seq<char>, nat, Seq<char>);

    open spec fn view(&self) -> (Seq<char>, nat, Seq<char>) {
        (self.file@, self.line as nat, self.content@)
    }
}

/// A file that the content search reads: its lines when it could be opened,
/// each `None` when it could not be read as text.
#[derive(Debug, PartialEq, Eq)]
pub struct SearchFile {
    pub path: String,
    pub lines: Option<Vec<Option<String>>>,
}

/// The matches among the given lines of the file at `path`.
pub open spec fn line_matches(path: Seq<char>, ls: Seq<Option<String>>, keyword: Seq<char>) -> Seq<
    (Seq<char>, nat, Seq<char>),
>
    decreases ls.len(),
{
    if ls.len() == 0 {
        seq![]
    } else {
        let rest = line_matches(path, ls.drop_last(), keyword);
        match ls.last() {
            Some(l) => if contains(l@, keyword) {
                rest.push((path, ls.len(), trim(l@)))
            } else {
                rest
            },
            None => rest,
        }
    }
}

/// The matches in one file.
pub open spec fn file_matches(f: SearchFile, keyword: Seq<char>) -> Seq<(Seq<char>, nat, Seq<char>)> {
    if is_search_skipped_path(f.path@) {
        seq![]
    } else {
        match f.lines {
            Some(ls) => line_matches(f.path@, ls@, keyword),
            None => seq![],
        }
    }
}

/// The matches in all the files, file after file.
pub open spec fn search_results(files: Seq<SearchFile>, keyword: Seq<char>) -> Seq<(Seq<char>, nat, Seq<char>)>
    decreases files.len(),
{
    if files.len() == 0 {
        seq![]
    } else {
        search_results(files.drop_last(), keyword) + file_matches(files.last(), keyword)
    }
}

fn file_matches_exec(f: &SearchFile, kw: &Vec<char>, out: &mut Vec<SearchMatch>)
    ensures
        final(out)@.map_values(|m: SearchMatch| m@) == old(out)@.map_values(|m: SearchMatch| m@)
            + file_matches(*f, kw@),
{
    let ghost start = out@.map_values(|m: SearchMatch| m@);
    if is_search_skipped(f.path.as_str()) {
        proof {
            assert(out@.map_values(|m: SearchMatch| m@) =~= start + file_matches(*f, kw@));
        }
        return;
    }
    match &f.lines {
        None => {
            proof {
                assert(out@.map_values(|m: SearchMatch| m@) =~= start + file_matches(*f, kw@));
            }
        },
        Some(ls) => {
            let ghost lv = ls@;
            let mut i: usize = 0;
            proof {
                assert(lv.take(0) =~= Seq::<Option<String>>::empty());
                assert(out@.map_values(|m: SearchMatch| m@) =~= start + line_matches(
                    f.path@,
                    lv.take(0),
                    kw@,
                ));
            }
            while i < ls.len()
                invariant
                    i <= ls@.len(),
                    lv == ls@,
                    out@.map_values(|m: SearchMatch| m@) == start + line_matches(
                        f.path@,
                        lv.take(i as int),
                        kw@,
                    ),
                decreases ls@.len() - i,
            {
                proof {
                    assert(lv.take(i + 1).drop_last() =~= lv.take(i as int));
                    assert(lv.take(i + 1).last() == lv[i as int]);
                }
                match &ls[i] {
                    Some(l) => {
                        let lc = chars_of(l.as_str());
                        if contains_exec(&lc, kw) {
                            let content = string_of(&trim_vec(&lc));
                            let ghost old_out = out@;
                            out.push(SearchMatch { file: f.path.clone(), line: i + 1, content });
                            proof {
                                assert(out@.map_values(|m: SearchMatch| m@) =~= old_out.map_values(
                                    |m: SearchMatch| m@,
                                ).push((f.path@, (i + 1) as nat, trim(l@))));
                            }
                        }
                    },
                    None => {},
                }
                i = i + 1;
            }
            proof {
                assert(lv.take(i as int) =~= lv);
            }
        },
    }
}

/// The lines that hold `keyword` in the files that a walk found: files in
/// generated paths and images are left out; the others are read line by line,
/// and each line that holds the keyword gives a match with its number and its
/// trimmed text.
pub fn search_matches(files: &Vec<SearchFile>, keyword: &str) -> (r: Vec<SearchMatch>)
    ensures
        r@.map_values(|m: SearchMatch| m@) == search_results(files@, keyword@),
        r@.len() == search_hits(files@, keyword@),
{
    proof {
        law_search_count(files@, keyword@);
    }
    let kw = chars_of(keyword);
    let ghost fs = files@;
    let mut out: Vec<SearchMatch> = Vec::new();
    let mut i: usize = 0;
    proof {
        assert(fs.take(0) =~= Seq::<SearchFile>::empty());
        assert(out@.map_values(|m: SearchMatch| m@) =~= Seq::<(Seq<char>, nat, Seq<char>)>::empty());
    }
    while i < files.len()
        invariant
            i <= files@.len(),
            fs == files@,
            kw@ == keyword@,
            out@.map_values(|m: SearchMatch| m@) == search_results(fs.take(i as int), kw@),
        decreases files@.len() - i,
    {
        proof {
            assert(fs.take(i + 1).drop_last() =~= fs.take(i as int));
            assert(fs.take(i + 1).last() == fs[i as int]);
        }
        file_matches_exec(&files[i], &kw, &mut out);
        i = i + 1;
    }
    proof {
        assert(fs.take(i as int) =~= fs);
    }
    out
}


/// A folder name that the file search does not descend into.
pub open spec fn is_find_skipped_name(name: Seq<char>) -> bool {
    name == "node_modules"@ || name == ".git"@ || name == "target"@
}

/// Whether the file search passes over an entry of this name.
pub fn find_skips(name: &str) -> (r: bool)
    ensures
        r == is_find_skipped_name(name@),
{
    let n = chars_of(name);
    spells(&n, "node_modules") || spells(&n, ".git") || spells(&n, "target")
}

/// Whether a file name answers a file search: its lower-case form holds the
/// lower-case form of the query.
pub fn find_matches(name: &str, query: &str) -> (r: bool)
    ensures
        r == contains(text_lower(name@), text_lower(query@)),
{
    let n = lower_text(name);
    let q = lower_text(query);
    let nc = chars_of(n.as_str());
    let qc = chars_of(q.as_str());
    contains_exec(&nc, &qc)
}


/// The number of the given files whose extension is `e`.
pub open spec fn count_with_extension(files: Seq<FileRecord>, e: Seq<char>) -> nat
    decreases files.len(),
{
    if files.len() == 0 {
        0
    } else {
        count_with_extension(files.drop_last(), e) + if extension(files.last().name@) == Some(e) {
            1nat
        } else {
            0nat
        }
    }
}

proof fn lemma_tally_index(t: Seq<(Seq<char>, nat)>, key: Seq<char>)
    ensures
        match tally_index(t, key) {
            Some(k) => 0 <= k < t.len() && t[k].0 == key,
            None => forall|k: int| 0 <= k < t.len() ==> #[trigger] t[k].0 != key,
        },
    decreases t.len(),
{
    if t.len() > 0 && t.last().0 != key {
        let d = t.drop_last();
        lemma_tally_index(d, key);
        if tally_index(d, key) is None {
            assert forall|k: int| 0 <= k < t.len() implies #[trigger] t[k].0 != key by {
                if k < t.len() - 1 {
                    assert(t[k] == d[k]);
                    assert(d[k].0 != key);
                }
            }
        }
    }
}

/// The tally of extensions names each extension once, gives each the number of
/// counted files that have it, and leaves out no extension that a file has.
pub proof fn law_extension_tally_counts(files: Seq<FileRecord>)
    ensures
        forall|i: int, j: int|
            0 <= i < j < extension_tally(files).len() ==> #[trigger] extension_tally(files)[i].0
                != #[trigger] extension_tally(files)[j].0,
        forall|k: int|
            0 <= k < extension_tally(files).len() ==> #[trigger] extension_tally(files)[k].1
                == count_with_extension(files, extension_tally(files)[k].0),
        forall|e: Seq<char>|
            count_with_extension(files, e) > 0 ==> exists|k: int|
                0 <= k < extension_tally(files).len() && #[trigger] extension_tally(files)[k].0 == e,
    decreases files.len(),
{
    if files.len() > 0 {
        let prev_files = files.drop_last();
        law_extension_tally_counts(prev_files);
        let rest = extension_tally(prev_files);
        let t = extension_tally(files);
        match extension(files.last().name@) {
            Some(x) => {
                lemma_tally_index(rest, x);
                match tally_index(rest, x) {
                    Some(p) => {
                        assert(t == rest.update(p, (x, rest[p].1 + 1)));
                        assert forall|i: int, j: int| 0 <= i < j < t.len() implies #[trigger] t[i].0 != #[trigger] t[j].0 by {
                            assert(rest[i].0 != rest[j].0);
                        }
                        assert forall|k: int| 0 <= k < t.len() implies #[trigger] t[k].1 == count_with_extension(files, t[k].0) by {
                            if k == p {
                            } else {
                                assert(rest[k].0 != x);
                            }
                        }
                        assert forall|e: Seq<char>| count_with_extension(files, e) > 0 implies exists|k: int|
                            0 <= k < t.len() && #[trigger] t[k].0 == e by {
                            if e == x {
                                assert(t[p].0 == e);
                            } else {
                                assert(count_with_extension(prev_files, e) > 0);
                                let k = choose|k: int| 0 <= k < rest.len() && #[trigger] rest[k].0 == e;
                                assert(t[k].0 == e);
                            }
                        }
                    },
                    None => {
                        assert(t == rest.push((x, 1)));
                        assert forall|i: int, j: int| 0 <= i < j < t.len() implies #[trigger] t[i].0 != #[trigger] t[j].0 by {
                            if j == t.len() - 1 {
                                assert(rest[i].0 != x);
                            } else {
                                assert(rest[i].0 != rest[j].0);
                            }
                        }
                        assert forall|k: int| 0 <= k < t.len() implies #[trigger] t[k].1 == count_with_extension(files, t[k].0) by {
                            if k == t.len() - 1 {
                                if count_with_extension(prev_files, x) > 0 {
                                    let q = choose|q: int| 0 <= q < rest.len() && #[trigger] rest[q].0 == x;
                                    assert(rest[q].0 != x);
                                }
                            } else {
                                assert(rest[k].0 != x);
                            }
                        }
                        assert forall|e: Seq<char>| count_with_extension(files, e) > 0 implies exists|k: int|
                            0 <= k < t.len() && #[trigger] t[k].0 == e by {
                            if e == x {
                                assert(t[t.len() - 1].0 == e);
                            } else {
                                assert(count_with_extension(prev_files, e) > 0);
                                let k = choose|k: int| 0 <= k < rest.len() && #[trigger] rest[k].0 == e;
                                assert(t[k].0 == e);
                            }
                        }
                    },
                }
            },
            None => {
                assert forall|e: Seq<char>| count_with_extension(files, e) == count_with_extension(prev_files, e) by {}
            },
        }
    }
}


/// The sum of the counts of a tally.
pub open spec fn tally_total(t: Seq<(Seq<char>, nat)>) -> nat
    decreases t.len(),
{
    if t.len() == 0 {
        0
    } else {
        tally_total(t.drop_last()) + t.last().1
    }
}

proof fn lemma_tally_total_update(t: Seq<(Seq<char>, nat)>, k: int, key: Seq<char>)
    requires
        0 <= k < t.len(),
    ensures
        tally_total(t.update(k, (key, t[k].1 + 1))) == tally_total(t) + 1,
    decreases t.len(),
{
    let u = t.update(k, (key, t[k].1 + 1));
    if k == t.len() - 1 {
        assert(u.drop_last() =~= t.drop_last());
    } else {
        lemma_tally_total_update(t.drop_last(), k, key);
        assert(u.drop_last() =~= t.drop_last().update(k, (key, t[k].1 + 1)));
    }
}

/// The extension counts add up to at most the number of files: each file
/// counts for its extension once, and files without one count for none.
pub proof fn law_extension_counts_within_total(files: Seq<FileRecord>)
    ensures
        tally_total(extension_tally(files)) <= files.len(),
    decreases files.len(),
{
    if files.len() > 0 {
        law_extension_counts_within_total(files.drop_last());
        let rest = extension_tally(files.drop_last());
        match extension(files.last().name@) {
            Some(e) => {
                lemma_tally_index(rest, e);
                match tally_index(rest, e) {
                    Some(k) => lemma_tally_total_update(rest, k, e),
                    None => assert(rest.push((e, 1nat)).drop_last() =~= rest),
                }
            },
            None => {},
        }
    }
}

/// Line `j` of the file `f` could be read and holds `keyword`.
pub open spec fn line_holds(f: SearchFile, j: int, keyword: Seq<char>) -> bool {
    &&& f.lines is Some
    &&& 0 <= j < f.lines->0@.len()
    &&& f.lines->0@[j] is Some
    &&& contains(f.lines->0@[j]->0@, keyword)
}

/// The number of lines among `ls` that could be read and hold `keyword`.
pub open spec fn lines_holding(ls: Seq<Option<String>>, keyword: Seq<char>) -> nat
    decreases ls.len(),
{
    if ls.len() == 0 {
        0
    } else {
        lines_holding(ls.drop_last(), keyword) + match ls.last() {
            Some(l) => if contains(l@, keyword) {
                1nat
            } else {
                0nat
            },
            None => 0nat,
        }
    }
}

/// The number of lines that hold `keyword` in the files that the search reads.
pub open spec fn search_hits(files: Seq<SearchFile>, keyword: Seq<char>) -> nat
    decreases files.len(),
{
    if files.len() == 0 {
        0
    } else {
        search_hits(files.drop_last(), keyword) + match files.last().lines {
            Some(ls) => if is_search_skipped_path(files.last().path@) {
                0nat
            } else {
                lines_holding(ls@, keyword)
            },
            None => 0nat,
        }
    }
}

proof fn lemma_line_matches_complete(path: Seq<char>, ls: Seq<Option<String>>, keyword: Seq<char>, j: int)
    requires
        0 <= j < ls.len(),
        ls[j] is Some,
        contains(ls[j]->0@, keyword),
    ensures
        line_matches(path, ls, keyword).contains((path, (j + 1) as nat, trim(ls[j]->0@))),
    decreases ls.len(),
{
    let rest = line_matches(path, ls.drop_last(), keyword);
    let m = line_matches(path, ls, keyword);
    if j == ls.len() - 1 {
        assert(m == rest.push((path, ls.len(), trim(ls[j]->0@))));
        assert(m[rest.len() as int] == (path, (j + 1) as nat, trim(ls[j]->0@)));
    } else {
        assert(ls.drop_last()[j] == ls[j]);
        lemma_line_matches_complete(path, ls.drop_last(), keyword, j);
        let k = choose|k: int| 0 <= k < rest.len() && rest[k] == (path, (j + 1) as nat, trim(ls[j]->0@));
        assert(m[k] == rest[k]);
    }
}

proof fn lemma_line_matches_sound(path: Seq<char>, ls: Seq<Option<String>>, keyword: Seq<char>, k: int)
    requires
        0 <= k < line_matches(path, ls, keyword).len(),
    ensures
        exists|j: int|
            0 <= j < ls.len() && ls[j] is Some && contains(ls[j]->0@, keyword)
                && #[trigger] line_matches(path, ls, keyword)[k] == (path, (j + 1) as nat, trim(ls[j]->0@)),
    decreases ls.len(),
{
    let d = ls.drop_last();
    let rest = line_matches(path, d, keyword);
    let m = line_matches(path, ls, keyword);
    if k < rest.len() {
        lemma_line_matches_sound(path, d, keyword, k);
        let j = choose|j: int|
            0 <= j < d.len() && d[j] is Some && contains(d[j]->0@, keyword)
                && #[trigger] line_matches(path, d, keyword)[k] == (path, (j + 1) as nat, trim(d[j]->0@));
        assert(d[j] == ls[j]);
        assert(m[k] == rest[k]);
    } else {
        let j = ls.len() - 1;
        assert(ls.last() == ls[j]);
        assert(m[k] == (path, (j + 1) as nat, trim(ls[j]->0@)));
    }
}

proof fn lemma_line_matches_len(path: Seq<char>, ls: Seq<Option<String>>, keyword: Seq<char>)
    ensures
        line_matches(path, ls, keyword).len() == lines_holding(ls, keyword),
    decreases ls.len(),
{
    if ls.len() > 0 {
        lemma_line_matches_len(path, ls.drop_last(), keyword);
    }
}

/// Every line that holds the keyword, in a file that the search reads, is
/// found: the results hold the file's path, the line's number (from 1) and the
/// line's trimmed text.
pub proof fn law_search_finds_every_line(files: Seq<SearchFile>, keyword: Seq<char>, i: int, j: int)
    requires
        0 <= i < files.len(),
        !is_search_skipped_path(files[i].path@),
        line_holds(files[i], j, keyword),
    ensures
        search_results(files, keyword).contains(
            (files[i].path@, (j + 1) as nat, trim(files[i].lines->0@[j]->0@)),
        ),
    decreases files.len(),
{
    let d = files.drop_last();
    let prev = search_results(d, keyword);
    let all = search_results(files, keyword);
    let hit = (files[i].path@, (j + 1) as nat, trim(files[i].lines->0@[j]->0@));
    if i == files.len() - 1 {
        let f = files.last();
        lemma_line_matches_complete(f.path@, f.lines->0@, keyword, j);
        let fm = file_matches(f, keyword);
        assert(fm == line_matches(f.path@, f.lines->0@, keyword));
        let k = choose|k: int| 0 <= k < fm.len() && fm[k] == hit;
        assert(all == prev + fm);
        assert(all[prev.len() + k] == hit);
    } else {
        assert(d[i] == files[i]);
        law_search_finds_every_line(d, keyword, i, j);
        let k = choose|k: int| 0 <= k < prev.len() && prev[k] == hit;
        assert(all[k] == prev[k]);
    }
}

/// Every result of the search is a line that holds the keyword, in a file that
/// the search reads, given with the file's path, the line's number (from 1)
/// and the line's trimmed text.
pub proof fn law_search_results_are_lines(files: Seq<SearchFile>, keyword: Seq<char>, k: int)
    requires
        0 <= k < search_results(files, keyword).len(),
    ensures
        exists|i: int, j: int|
            0 <= i < files.len() && !is_search_skipped_path(files[i].path@) && line_holds(files[i], j, keyword)
                && #[trigger] search_results(files, keyword)[k] == (
                files[i].path@,
                (j + 1) as nat,
                trim(files[i].lines->0@[j]->0@),
            ),
    decreases files.len(),
{
    let d = files.drop_last();
    let prev = search_results(d, keyword);
    let all = search_results(files, keyword);
    if k < prev.len() {
        law_search_results_are_lines(d, keyword, k);
        let (i, j) = choose|i: int, j: int|
            0 <= i < d.len() && !is_search_skipped_path(d[i].path@) && line_holds(d[i], j, keyword)
                && #[trigger] search_results(d, keyword)[k] == (
                d[i].path@,
                (j + 1) as nat,
                trim(d[i].lines->0@[j]->0@),
            );
        assert(d[i] == files[i]);
        assert(all[k] == prev[k]);
    } else {
        let i = files.len() - 1;
        let f = files[i];
        let fm = file_matches(f, keyword);
        assert(all == prev + fm);
        assert(all[k] == fm[k - prev.len()]);
        lemma_line_matches_sound(f.path@, f.lines->0@, keyword, k - prev.len());
        let j = choose|j: int|
            0 <= j < f.lines->0@.len() && f.lines->0@[j] is Some && contains(f.lines->0@[j]->0@, keyword)
                && #[trigger] line_matches(f.path@, f.lines->0@, keyword)[k - prev.len()] == (
                f.path@,
                (j + 1) as nat,
                trim(f.lines->0@[j]->0@),
            );
        assert(line_holds(files[i], j, keyword));
    }
}

/// The search gives one result per line that holds the keyword in a file that
/// it reads: no line is dropped and none is given twice.
pub proof fn law_search_count(files: Seq<SearchFile>, keyword: Seq<char>)
    ensures
        search_results(files, keyword).len() == search_hits(files, keyword),
    decreases files.len(),
{
    if files.len() > 0 {
        let f = files.last();
        law_search_count(files.drop_last(), keyword);
        match f.lines {
            Some(ls) => lemma_line_matches_len(f.path@, ls@, keyword),
            None => {},
        }
    }
}

proof fn lemma_lines_holding_step(ls: Seq<Option<String>>, keyword: Seq<char>, j: int)
    requires
        0 <= j < ls.len(),
    ensures
        lines_holding(ls.take(j + 1), keyword) == lines_holding(ls.take(j), keyword) + if ls[j] is Some
            && contains(ls[j]->0@, keyword) {
            1nat
        } else {
            0nat
        },
{
    assert(ls.take(j + 1).drop_last() =~= ls.take(j));
    assert(ls.take(j + 1).last() == ls[j]);
}

proof fn lemma_lines_holding_grows(ls: Seq<Option<String>>, keyword: Seq<char>, a: int, b: int)
    requires
        0 <= a <= b <= ls.len(),
    ensures
        lines_holding(ls.take(a), keyword) <= lines_holding(ls.take(b), keyword),
    decreases b - a,
{
    if a < b {
        lemma_lines_holding_grows(ls, keyword, a, b - 1);
        lemma_lines_holding_step(ls, keyword, b - 1);
    }
}

proof fn lemma_search_hits_step(files: Seq<SearchFile>, keyword: Seq<char>, i: int)
    requires
        0 <= i < files.len(),
    ensures
        search_hits(files.take(i + 1), keyword) == search_hits(files.take(i), keyword) + match files[i].lines {
            Some(ls) => if is_search_skipped_path(files[i].path@) {
                0nat
            } else {
                lines_holding(ls@, keyword)
            },
            None => 0nat,
        },
{
    assert(files.take(i + 1).drop_last() =~= files.take(i));
    assert(files.take(i + 1).last() == files[i]);
}

proof fn lemma_search_hits_grows(files: Seq<SearchFile>, keyword: Seq<char>, a: int, b: int)
    requires
        0 <= a <= b <= files.len(),
    ensures
        search_hits(files.take(a), keyword) <= search_hits(files.take(b), keyword),
    decreases b - a,
{
    if a < b {
        lemma_search_hits_grows(files, keyword, a, b - 1);
        lemma_search_hits_step(files, keyword, b - 1);
    }
}

proof fn lemma_line_matches_at(path: Seq<char>, ls: Seq<Option<String>>, keyword: Seq<char>, j: int)
    requires
        0 <= j < ls.len(),
        ls[j] is Some,
        contains(ls[j]->0@, keyword),
    ensures
        lines_holding(ls.take(j), keyword) < line_matches(path, ls, keyword).len(),
        line_matches(path, ls, keyword)[lines_holding(ls.take(j), keyword) as int] == (
            path,
            (j + 1) as nat,
            trim(ls[j]->0@),
        ),
    decreases ls.len(),
{
    let d = ls.drop_last();
    let rest = line_matches(path, d, keyword);
    let m = line_matches(path, ls, keyword);
    if j == ls.len() - 1 {
        lemma_line_matches_len(path, d, keyword);
        assert(ls.take(j) =~= d);
        assert(m == rest.push((path, ls.len(), trim(ls[j]->0@))));
    } else {
        assert(d[j] == ls[j]);
        assert(d.take(j) =~= ls.take(j));
        lemma_line_matches_at(path, d, keyword, j);
    }
}

proof fn lemma_search_results_at(files: Seq<SearchFile>, keyword: Seq<char>, i: int, j: int)
    requires
        0 <= i < files.len(),
        !is_search_skipped_path(files[i].path@),
        line_holds(files[i], j, keyword),
    ensures
        search_hits(files.take(i), keyword) + lines_holding(files[i].lines->0@.take(j), keyword)
            < search_results(files, keyword).len(),
        search_results(files, keyword)[(search_hits(files.take(i), keyword) + lines_holding(
            files[i].lines->0@.take(j),
            keyword,
        )) as int] == (files[i].path@, (j + 1) as nat, trim(files[i].lines->0@[j]->0@)),
    decreases files.len(),
{
    let d = files.drop_last();
    let prev = search_results(d, keyword);
    let all = search_results(files, keyword);
    let ls = files[i].lines->0@;
    if i == files.len() - 1 {
        law_search_count(d, keyword);
        assert(files.take(i) =~= d);
        lemma_line_matches_at(files[i].path@, ls, keyword, j);
        assert(all == prev + file_matches(files[i], keyword));
    } else {
        assert(d[i] == files[i]);
        assert(d.take(i) =~= files.take(i));
        lemma_search_results_at(d, keyword, i, j);
    }
}

/// The search gives its results file after file, in the order of the files,
/// and within a file in the order of its lines: a line that holds the keyword
/// comes before every such line of a later file, and before every later such
/// line of its own file.
pub proof fn law_search_order(files: Seq<SearchFile>, keyword: Seq<char>, i1: int, j1: int, i2: int, j2: int)
    requires
        0 <= i1 < files.len(),
        0 <= i2 < files.len(),
        !is_search_skipped_path(files[i1].path@),
        !is_search_skipped_path(files[i2].path@),
        line_holds(files[i1], j1, keyword),
        line_holds(files[i2], j2, keyword),
        i1 < i2 || (i1 == i2 && j1 < j2),
    ensures
        exists|k1: int, k2: int|
            0 <= k1 < k2 < search_results(files, keyword).len() && #[trigger] search_results(files, keyword)[k1]
                == (files[i1].path@, (j1 + 1) as nat, trim(files[i1].lines->0@[j1]->0@))
                && #[trigger] search_results(files, keyword)[k2] == (
                files[i2].path@,
                (j2 + 1) as nat,
                trim(files[i2].lines->0@[j2]->0@),
            ),
{
    let ls1 = files[i1].lines->0@;
    let ls2 = files[i2].lines->0@;
    let k1: int = (search_hits(files.take(i1), keyword) + lines_holding(ls1.take(j1), keyword)) as int;
    let k2: int = (search_hits(files.take(i2), keyword) + lines_holding(ls2.take(j2), keyword)) as int;
    lemma_search_results_at(files, keyword, i1, j1);
    lemma_search_results_at(files, keyword, i2, j2);
    lemma_lines_holding_step(ls1, keyword, j1);
    if i1 == i2 {
        lemma_lines_holding_grows(ls1, keyword, j1 + 1, j2);
    } else {
        lemma_lines_holding_grows(ls1, keyword, j1 + 1, ls1.len() as int);
        assert(ls1.take(ls1.len() as int) =~= ls1);
        lemma_search_hits_step(files, keyword, i1);
        lemma_search_hits_grows(files, keyword, i1 + 1, i2);
    }
    assert(k1 < k2);
    assert(search_results(files, keyword)[k1] == (files[i1].path@, (j1 + 1) as nat, trim(ls1[j1]->0@)));
    assert(search_results(files, keyword)[k2] == (files[i2].path@, (j2 + 1) as nat, trim(ls2[j2]->0@)));
}

/// The number of the given records outside generated paths.
pub open spec fn records_outside_generated(files: Seq<FileRecord>) -> nat
    decreases files.len(),
{
    if files.len() == 0 {
        0
    } else {
        records_outside_generated(files.drop_last()) + if is_generated_path(files.last().path@) {
            0nat
        } else {
            1nat
        }
    }
}

/// The known line counts of the given records outside generated paths, added up.
pub open spec fn lines_outside_generated(files: Seq<FileRecord>) -> int
    decreases files.len(),
{
    if files.len() == 0 {
        0
    } else {
        lines_outside_generated(files.drop_last()) + match files.last().lines {
            Some(n) => if is_generated_path(files.last().path@) {
                0
            } else {
                n as int
            },
            None => 0,
        }
    }
}

/// The number of the given records outside generated paths whose size is known.
pub open spec fn sized_outside_generated(files: Seq<FileRecord>) -> nat
    decreases files.len(),
{
    if files.len() == 0 {
        0
    } else {
        sized_outside_generated(files.drop_last()) + match files.last().size {
            Some(_) => if is_generated_path(files.last().path@) {
                0nat
            } else {
                1nat
            },
            None => 0nat,
        }
    }
}

/// The statistics count every file outside generated paths, whatever its name:
/// the number of files is the number of such records, the number of lines adds
/// up the known line counts of exactly those records, and the list of largest
/// files has one entry per such record whose size is known.
pub proof fn law_stats_count_every_file(files: Seq<FileRecord>)
    ensures
        counted(files).len() == records_outside_generated(files),
        total_lines(counted(files)) == lines_outside_generated(files),
        sized(counted(files)).len() == sized_outside_generated(files),
    decreases files.len(),
{
    if files.len() > 0 {
        let d = files.drop_last();
        law_stats_count_every_file(d);
        if !is_generated_path(files.last().path@) {
            assert(counted(files) == counted(d).push(files.last()));
            assert(counted(files).drop_last() =~= counted(d));
            assert(counted(files).last() == files.last());
        }
    }
}

/// Each record outside generated paths is among the counted ones, and each
/// counted record is one of the given records, outside generated paths.
pub proof fn law_stats_counted_records(files: Seq<FileRecord>)
    ensures
        forall|i: int|
            0 <= i < files.len() && !is_generated_path(files[i].path@) ==> counted(files).contains(
                #[trigger] files[i],
            ),
        forall|k: int|
            0 <= k < counted(files).len() ==> files.contains(#[trigger] counted(files)[k])
                && !is_generated_path(counted(files)[k].path@),
    decreases files.len(),
{
    if files.len() > 0 {
        let d = files.drop_last();
        law_stats_counted_records(d);
        let c = counted(files);
        let cd = counted(d);
        assert forall|i: int| 0 <= i < files.len() && !is_generated_path(files[i].path@) implies c.contains(
            #[trigger] files[i],
        ) by {
            if i == files.len() - 1 {
                assert(c == cd.push(files.last()));
                assert(c[cd.len() as int] == files[i]);
            } else {
                assert(d[i] == files[i]);
                assert(cd.contains(d[i]));
                let q = choose|q: int| 0 <= q < cd.len() && cd[q] == d[i];
                assert(c[q] == cd[q]);
            }
        }
        assert forall|k: int| 0 <= k < c.len() implies files.contains(#[trigger] c[k]) && !is_generated_path(
            c[k].path@,
        ) by {
            if k < cd.len() {
                assert(c[k] == cd[k]);
                assert(d.contains(cd[k]));
                let q = choose|q: int| 0 <= q < d.len() && d[q] == cd[k];
                assert(files[q] == d[q]);
            } else {
                assert(c[k] == files.last());
                assert(files[files.len() - 1] == files.last());
            }
        }
    }
}

/// The number of the given timed files outside generated paths.
pub open spec fn timed_outside_generated(files: Seq<TimedFile>) -> nat
    decreases files.len(),
{
    if files.len() == 0 {
        0
    } else {
        timed_outside_generated(files.drop_last()) + if is_generated_path(files.last().path@) {
            0nat
        } else {
            1nat
        }
    }
}

proof fn lemma_recent_candidates(files: Seq<TimedFile>, i: int)
    requires
        0 <= i < files.len(),
        !is_generated_path(files[i].path@),
    ensures
        recent_candidates(files).len() == timed_outside_generated(files),
        exists|x: int|
            0 <= x < recent_candidates(files).len() && #[trigger] recent_candidates(files)[x] == (
                files[i].path@,
                files[i].modified,
            ),
    decreases files.len(),
{
    let d = files.drop_last();
    let c = recent_candidates(files);
    let cd = recent_candidates(d);
    if i == files.len() - 1 {
        lemma_recent_count(d);
        assert(c == cd.push((files[i].path@, files[i].modified)));
        assert(c[cd.len() as int] == (files[i].path@, files[i].modified));
    } else {
        assert(d[i] == files[i]);
        lemma_recent_candidates(d, i);
        let x = choose|x: int| 0 <= x < cd.len() && #[trigger] cd[x] == (d[i].path@, d[i].modified);
        if !is_generated_path(files.last().path@) {
            assert(c == cd.push((files.last().path@, files.last().modified)));
        }
        assert(c[x] == cd[x]);
    }
}

proof fn lemma_recent_candidates_sound(files: Seq<TimedFile>, x: int)
    requires
        0 <= x < recent_candidates(files).len(),
    ensures
        exists|i: int|
            0 <= i < files.len() && !is_generated_path(files[i].path@) && #[trigger] recent_candidates(files)[x]
                == (files[i].path@, files[i].modified),
    decreases files.len(),
{
    let d = files.drop_last();
    let cd = recent_candidates(d);
    let c = recent_candidates(files);
    if x < cd.len() {
        lemma_recent_candidates_sound(d, x);
        let i = choose|i: int|
            0 <= i < d.len() && !is_generated_path(d[i].path@) && #[trigger] recent_candidates(d)[x] == (
                d[i].path@,
                d[i].modified,
            );
        assert(d[i] == files[i]);
        if !is_generated_path(files.last().path@) {
            assert(c == cd.push((files.last().path@, files.last().modified)));
        }
        assert(c[x] == cd[x]);
    } else {
        let i = files.len() - 1;
        assert(files[i] == files.last());
        assert(c == cd.push((files.last().path@, files.last().modified)));
        assert(c[x] == (files[i].path@, files[i].modified));
    }
}

proof fn lemma_recent_count(files: Seq<TimedFile>)
    ensures
        recent_candidates(files).len() == timed_outside_generated(files),
    decreases files.len(),
{
    if files.len() > 0 {
        lemma_recent_count(files.drop_last());
    }
}

/// What the list of recent files gives (in the terms of `recent_files`'
/// contract) holds one entry per file outside generated paths, up to ten; each
/// entry is the path and change time of such a file; and no such file that was
/// changed later than the last one listed is left out: with fewer than ten
/// entries, every such file is listed.
pub proof fn law_recent_keeps_latest(files: Seq<TimedFile>, ord: Seq<usize>, out: Seq<(Seq<char>, i128)>)
    requires
        is_stable_descending(time_keys(recent_candidates(files)), ord),
        arranged(recent_candidates(files), ord.take(out.len() as int), out),
        out.len() == if recent_candidates(files).len() < recent_limit() {
            recent_candidates(files).len()
        } else {
            recent_limit()
        },
    ensures
        out.len() == if timed_outside_generated(files) < 10 {
            timed_outside_generated(files)
        } else {
            10
        },
        forall|i: int|
            0 <= i < files.len() && !is_generated_path(files[i].path@) && (out.len() < 10
                || files[i].modified > out[9].1) ==> out.contains((#[trigger] files[i].path@, files[i].modified)),
        forall|k: int|
            0 <= k < out.len() ==> exists|i: int|
                0 <= i < files.len() && !is_generated_path(files[i].path@) && #[trigger] out[k] == (
                    files[i].path@,
                    files[i].modified,
                ),
{
    lemma_recent_count(files);
    let c = recent_candidates(files);
    let keys = time_keys(c);
    let pre = ord.take(out.len() as int);
    assert forall|i: int|
        0 <= i < files.len() && !is_generated_path(files[i].path@) && (out.len() < 10 || files[i].modified
            > out[9].1) implies out.contains((#[trigger] files[i].path@, files[i].modified)) by {
        lemma_recent_candidates(files, i);
        let x = choose|x: int| 0 <= x < c.len() && #[trigger] c[x] == (files[i].path@, files[i].modified);
        crate::order::lemma_arrangement_covers(ord, keys.len(), x);
        let p = choose|p: int| 0 <= p < ord.len() && ord[p] as int == x;
        if p < out.len() {
            assert(pre[p] == ord[p]);
            assert(out[p] == c[x]);
        } else {
            assert(out.len() == 10);
            assert(pre[9] == ord[9]);
            assert(out[9] == c[ord[9] as int]);
            assert(comes_before(keys, ord[9] as int, ord[p] as int));
            assert(keys[x] == c[x].1);
            assert(keys[ord[9] as int] == c[ord[9] as int].1);
        }
    }
    assert forall|k: int| 0 <= k < out.len() implies exists|i: int|
        0 <= i < files.len() && !is_generated_path(files[i].path@) && #[trigger] out[k] == (
            files[i].path@,
            files[i].modified,
        ) by {
        assert(out[k] == c[pre[k] as int]);
        lemma_recent_candidates_sound(files, pre[k] as int);
    }
}

} // verus!
