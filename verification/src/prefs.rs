//! The list of recently opened files and the user-interface preferences.
use vstd::prelude::*;

verus! {

broadcast use vstd::std_specs::vec::group_vec_axioms;

/// How many recently opened files are kept.
pub const MAX_RECENT: usize = 20;

/// A recently opened file and when it was opened (seconds since the epoch).
#[derive(Debug)]
pub struct RecentFile {
    pub path: String,
    pub timestamp: i64,
}

/// The recently opened files, the most recent first.
#[derive(Debug)]
pub struct RecentFilesResult {
    pub files: Vec<RecentFile>,
}

/// The entries whose path is not `path`, in order.
pub open spec fn without_path(files: Seq<RecentFile>, path: Seq<char>) -> Seq<RecentFile>
    decreases files.len(),
{
    if files.len() == 0 {
        Seq::empty()
    } else {
        let prev = without_path(files.drop_last(), path);
        if files.last().path@ == path {
            prev
        } else {
            prev.push(files.last())
        }
    }
}

/// Drops every entry for `path`.
pub fn remove_recent(files: &mut Vec<RecentFile>, path: &str)
    ensures
        final(files)@ == without_path(old(files)@, path@),
{
    let ghost input = files@;
    let mut rest: Vec<RecentFile> = Vec::new();
    std::mem::swap(&mut rest, files);
    let total = rest.len();
    let mut k: usize = 0;
    while rest.len() > 0
        invariant
            input.len() == total,
            k + rest@.len() == input.len(),
            rest@ == input.subrange(k as int, input.len() as int),
            files@ == without_path(input.subrange(0, k as int), path@),
        decreases rest@.len(),
    {
        let f = rest.remove(0);
        proof {
            let pre = input.subrange(0, k + 1);
            assert(pre.drop_last() =~= input.subrange(0, k as int));
            assert(pre.last() == f);
        }
        if !crate::text::str_eq(f.path.as_str(), path) {
            files.push(f);
        }
        k = k + 1;
        assert(rest@ =~= input.subrange(k as int, input.len() as int));
    }
    assert(input.subrange(0, k as int) =~= input);
}

/// The list after opening `path` at `timestamp`: the file moves to the
/// front and at most [`MAX_RECENT`] entries are kept.
pub open spec fn recent_after_open(files: Seq<RecentFile>, entry: RecentFile) -> Seq<RecentFile> {
    let all = seq![entry] + without_path(files, entry.path@);
    if all.len() > MAX_RECENT {
        all.subrange(0, MAX_RECENT as int)
    } else {
        all
    }
}

/// Records that `path` was opened at `timestamp`.
pub fn add_recent(files: &mut Vec<RecentFile>, path: String, timestamp: i64)
    ensures
        final(files)@ == recent_after_open(old(files)@, RecentFile { path, timestamp }),
{
    remove_recent(files, path.as_str());
    let ghost rest = files@;
    files.insert(0, RecentFile { path, timestamp });
    files.truncate(MAX_RECENT);
    assert(final(files)@ =~= recent_after_open(old(files)@, RecentFile { path, timestamp }));
}

/// No two entries are for the same file.
pub open spec fn paths_distinct(files: Seq<RecentFile>) -> bool {
    forall|i: int, j: int| 0 <= i < j < files.len() ==> files[i].path@ != files[j].path@
}

proof fn lemma_without_path(files: Seq<RecentFile>, path: Seq<char>)
    ensures
        without_path(files, path).len() <= files.len(),
        forall|k: int|
            0 <= k < without_path(files, path).len() ==> (#[trigger] without_path(files, path)[k]).path@ != path
                && exists|j: int| 0 <= j < files.len() && without_path(files, path)[k] == files[j],
        paths_distinct(files) ==> paths_distinct(without_path(files, path)),
    decreases files.len(),
{
    if files.len() > 0 {
        let prev = without_path(files.drop_last(), path);
        lemma_without_path(files.drop_last(), path);
        let r = without_path(files, path);
        assert forall|k: int| 0 <= k < r.len() implies (#[trigger] r[k]).path@ != path && exists|j: int|
            0 <= j < files.len() && r[k] == files[j] by {
            if k < prev.len() {
                let j = choose|j: int| 0 <= j < files.drop_last().len() && prev[k] == files.drop_last()[j];
                assert(r[k] == files[j]);
            } else {
                assert(r[k] == files[files.len() - 1]);
            }
        }
        if paths_distinct(files) && files.last().path@ != path {
            assert forall|i: int, j: int| 0 <= i < j < r.len() implies r[i].path@ != r[j].path@ by {
                let ii = choose|x: int| 0 <= x < files.drop_last().len() && prev[i] == files.drop_last()[x];
                if j < prev.len() {
                } else {
                    assert(r[i] == files[ii]);
                    assert(r[j] == files[files.len() - 1]);
                }
            }
        }
    }
}

/// After a file is opened it heads the list, appears once, and the list
/// holds at most [`MAX_RECENT`] entries without two for the same file
/// (when it held none before).
pub proof fn law_recent_after_open(files: Seq<RecentFile>, entry: RecentFile)
    ensures
        ({
            let r = recent_after_open(files, entry);
            &&& 0 < r.len() <= MAX_RECENT
            &&& r[0] == entry
            &&& forall|k: int| 1 <= k < r.len() ==> (#[trigger] r[k]).path@ != entry.path@
            &&& paths_distinct(files) ==> paths_distinct(r)
        }),
{
    lemma_without_path(files, entry.path@);
    let w = without_path(files, entry.path@);
    let all = seq![entry] + w;
    let r = recent_after_open(files, entry);
    assert forall|k: int| 1 <= k < r.len() implies (#[trigger] r[k]).path@ != entry.path@ by {
        assert(r[k] == w[k - 1]);
    }
    if paths_distinct(files) {
        assert forall|i: int, j: int| 0 <= i < j < r.len() implies r[i].path@ != r[j].path@ by {
            assert(r[j] == w[j - 1]);
            if i > 0 {
                assert(r[i] == w[i - 1]);
            }
        }
    }
}

/// The user-interface preferences.
#[derive(Debug)]
pub struct UiPrefs {
    pub font_size: u8,
    pub theme: String,
    pub split_pct: u8,
    pub row_density: String,
    pub default_hide_unchanged: bool,
    pub auto_expand_first_level: bool,
    pub max_recent_files: u8,
    pub wrap_table_text: bool,
    pub last_tab_title: Option<String>,
    pub auto_check_updates: bool,
}

/// The theme when none is stored: `dark`.
pub fn default_theme() -> (r: String)
    ensures
        r@ == "dark"@,
{
    "dark".to_owned()
}

/// The width of the tree pane when none is stored, in percent.
pub fn default_split_pct() -> (r: u8)
    ensures
        r == 35,
{
    35
}

/// The row density when none is stored: `comfortable`.
pub fn default_row_density() -> (r: String)
    ensures
        r@ == "comfortable"@,
{
    "comfortable".to_owned()
}

/// How many recent files are listed when no number is stored.
pub fn default_max_recent_files() -> (r: u8)
    ensures
        r == 10,
{
    10
}

impl Default for UiPrefs {
    fn default() -> (r: Self)
        ensures
            r.font_size == 13,
            r.theme@ == "dark"@,
            r.split_pct == 35,
            r.row_density@ == "comfortable"@,
            !r.default_hide_unchanged,
            !r.auto_expand_first_level,
            r.max_recent_files == 10,
            !r.wrap_table_text,
            r.last_tab_title is None,
            !r.auto_check_updates,
    {
        UiPrefs {
            font_size: 13,
            theme: default_theme(),
            split_pct: default_split_pct(),
            row_density: default_row_density(),
            default_hide_unchanged: false,
            auto_expand_first_level: false,
            max_recent_files: default_max_recent_files(),
            wrap_table_text: false,
            last_tab_title: None,
            auto_check_updates: false,
        }
    }
}

} // verus!
