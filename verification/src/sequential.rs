//! The single-threaded variant of the program: files are drawn one at a time
//! at random and moved into numbered folders of a fixed size.
use vstd::prelude::*;
use crate::text::{chars_of, push_char, push_decimal, decimal, find_first, occurs_at, contains_seq};
use crate::path::{components_of, pieces_equal, path_components};
use crate::scan::{find_type, first_type, type_pattern, texts, shows_type, lemma_pattern_is_dot_type};
use crate::random::{draw_below, drawn_below};
use crate::plan::{date_text, is_date_text, strftime_accepts, strftime_text, clock_reading, DataError};

verus! {

/// A path of a wanted type, with the position of the first type found in it.
pub struct DrawnFile {
    pub type_index: usize,
    pub path: String,
}

/// The paths of wanted types, each with its first type, in listing order;
/// paths that are not valid UTF-8 (`None`) are left out.
pub open spec fn drawable_files(paths: Seq<Option<String>>, types: Seq<Seq<char>>) -> Seq<DrawnFile>
    decreases paths.len(),
{
    if paths.len() == 0 {
        Seq::empty()
    } else {
        let before = drawable_files(paths.drop_last(), types);
        match paths.last() {
            Some(p) => match first_type(p@, types) {
                Some(k) => before.push(DrawnFile { type_index: k as usize, path: p }),
                None => before,
            },
            None => before,
        }
    }
}

/// The valid UTF-8 paths of no wanted type, in listing order.
pub open spec fn other_paths(paths: Seq<Option<String>>, types: Seq<Seq<char>>) -> Seq<String>
    decreases paths.len(),
{
    if paths.len() == 0 {
        Seq::empty()
    } else {
        let before = other_paths(paths.drop_last(), types);
        match paths.last() {
            Some(p) => if first_type(p@, types) is None {
                before.push(p)
            } else {
                before
            },
            None => before,
        }
    }
}

/// Every path sorted as of a wanted type shows its type, read character by
/// character: a `.` directly followed by the type at its position, and no
/// type listed before it shows that way; no path sorted as other shows any
/// wanted type.
pub proof fn law_drawn_paths_show_dot_type(paths: Seq<Option<String>>, types: Seq<Seq<char>>)
    requires
        types.len() <= usize::MAX,
    ensures
        forall|k: int|
            0 <= k < drawable_files(paths, types).len() ==> {
                let f = #[trigger] drawable_files(paths, types)[k];
                &&& 0 <= f.type_index < types.len()
                &&& shows_type(f.path@, types[f.type_index as int])
                &&& forall|t: int| 0 <= t < f.type_index ==> !shows_type(f.path@, #[trigger] types[t])
            },
        forall|k: int|
            0 <= k < other_paths(paths, types).len() ==> forall|t: int|
                0 <= t < types.len() ==> !shows_type(
                    (#[trigger] other_paths(paths, types)[k])@,
                    #[trigger] types[t],
                ),
    decreases paths.len(),
{
    if paths.len() > 0 {
        law_drawn_paths_show_dot_type(paths.drop_last(), types);
        let before = drawable_files(paths.drop_last(), types);
        let after = drawable_files(paths, types);
        assert(forall|k: int| 0 <= k < before.len() ==> after[k] == before[k]);
        let obefore = other_paths(paths.drop_last(), types);
        let oafter = other_paths(paths, types);
        assert(forall|k: int| 0 <= k < obefore.len() ==> oafter[k] == obefore[k]);
        match paths.last() {
            Some(p) => {
                crate::scan::lemma_first_type_facts(p@, types, 0);
                assert forall|t: Seq<char>|
                    contains_seq(p@, type_pattern(t)) <==> #[trigger] shows_type(p@, t) by {
                    lemma_pattern_is_dot_type(p@, t);
                }
            },
            None => {},
        }
    }
}

/// Sorts the listed paths into those of a wanted type (the type found
/// after a dot anywhere in the path) and all other valid UTF-8 paths.
pub fn sort_paths(paths: &Vec<Option<String>>, file_type: &Vec<String>) -> (res: (Vec<DrawnFile>, Vec<String>))
    ensures
        res.0@ == drawable_files(paths@, texts(file_type@)),
        res.1@ == other_paths(paths@, texts(file_type@)),
        forall|k: int| 0 <= k < res.0.len() ==> #[trigger] res.0[k].type_index < file_type.len(),
{
    let ghost types = texts(file_type@);
    let mut patterns: Vec<Vec<char>> = Vec::new();
    let mut t: usize = 0;
    while t < file_type.len()
        invariant
            t <= file_type.len(),
            types == texts(file_type@),
            patterns.len() == t,
            forall|m: int| 0 <= m < t ==> patterns[m]@ == type_pattern(types[m]),
        decreases file_type.len() - t,
    {
        let mut p: Vec<char> = Vec::new();
        p.push('.');
        let mut c = chars_of(file_type[t].as_str());
        p.append(&mut c);
        assert(p@ =~= type_pattern(types[t as int]));
        patterns.push(p);
        t = t + 1;
    }
    let mut files: Vec<DrawnFile> = Vec::new();
    let mut others: Vec<String> = Vec::new();
    let mut i: usize = 0;
    while i < paths.len()
        invariant
            i <= paths.len(),
            types == texts(file_type@),
            patterns.len() == types.len(),
            types.len() == file_type.len(),
            forall|m: int| 0 <= m < patterns.len() ==> patterns[m]@ == type_pattern(types[m]),
            files@ == drawable_files(paths@.subrange(0, i as int), types),
            others@ == other_paths(paths@.subrange(0, i as int), types),
            forall|k: int| 0 <= k < files.len() ==> #[trigger] files[k].type_index < file_type.len(),
        decreases paths.len() - i,
    {
        let ghost prefix = paths@.subrange(0, i + 1);
        assert(prefix.drop_last() =~= paths@.subrange(0, i as int));
        match &paths[i] {
            Some(p) => {
                let cs = chars_of(p.as_str());
                proof {
                    crate::scan::lemma_first_type_facts(cs@, types, 0);
                }
                match find_type(&cs, &patterns, Ghost(types)) {
                    Some(k) => {
                        files.push(DrawnFile { type_index: k, path: p.clone() });
                    },
                    None => {
                        others.push(p.clone());
                    },
                }
            },
            None => {},
        }
        i = i + 1;
    }
    assert(paths@.subrange(0, paths.len() as int) =~= paths@);
    (files, others)
}

/// Whether a folder still has to be created: no listed path names the same
/// place, paths being compared component by component as `path_components`
/// gives them for the system separator `sep` (so `a//b`, `a/b/` and `a/./b`
/// all name `a/b`; on Windows `c:/w` names `C:\w`, while `C:` and `C:\`
/// differ).
pub fn needs_folder(dirpath: &str, dirlist: &Vec<String>, sep: char) -> (res: bool)
    ensures
        res == !exists|k: int|
            0 <= k < dirlist.len() && path_components(#[trigger] dirlist[k]@, sep)
                == path_components(dirpath@, sep),
{
    let target = components_of(dirpath, sep);
    let mut k: usize = 0;
    while k < dirlist.len()
        invariant
            k <= dirlist.len(),
            target@.map_values(|v: Vec<char>| v@) == path_components(dirpath@, sep),
            forall|m: int|
                0 <= m < k ==> path_components(#[trigger] dirlist[m]@, sep) != path_components(
                    dirpath@,
                    sep,
                ),
        decreases dirlist.len() - k,
    {
        let listed = components_of(dirlist[k].as_str(), sep);
        if pieces_equal(&listed, &target) {
            return false;
        }
        k = k + 1;
    }
    true
}

/// The path of folder `i`: the workspace, a separator, the date, the folder
/// name, a dash and `i`.
pub open spec fn folder_path_spec(workspace: Seq<char>, sep: char, date: Seq<char>, name: Seq<char>, i: nat) -> Seq<char> {
    workspace.push(sep) + date + name + seq!['-'] + decimal(i)
}

/// Builds the path of folder `i`.
pub fn folder_path(workspace: &str, sep: char, date: &str, name: &str, i: usize) -> (res: String)
    ensures
        res@ == folder_path_spec(workspace@, sep, date@, name@, i as nat),
{
    let mut res = String::from_str(workspace);
    push_char(&mut res, sep);
    res.append(date);
    res.append(name);
    push_char(&mut res, '-');
    push_decimal(&mut res, i);
    assert(res@ =~= folder_path_spec(workspace@, sep, date@, name@, i as nat));
    res
}

/// Draws one file at random from `list` and takes it out; the last file
/// takes its place.
pub fn draw_file(list: &mut Vec<DrawnFile>) -> (res: DrawnFile)
    requires
        old(list).len() > 0,
    ensures
        exists|k: int|
            0 <= k < old(list).len() && res == old(list)[k] && final(list)@ == old(list)@.update(
                k,
                old(list)@.last(),
            ).drop_last(),
        exists|k: usize|
            drawn_below(old(list).len() as usize, k) && res == old(list)[k as int] && final(list)@
                == old(list)@.update(k as int, old(list)@.last()).drop_last(),
{
    let k = draw_below(list.len());
    list.swap_remove(k)
}

/// The part of `hay` after the first occurrence of `pat`, or nothing when
/// `pat` does not occur.
pub open spec fn after_first(hay: Seq<char>, pat: Seq<char>) -> Seq<char> {
    if contains_seq(hay, pat) {
        let i = choose|i: int|
            occurs_at(hay, pat, i) && forall|j: int| 0 <= j < i ==> !occurs_at(hay, pat, j);
        hay.skip(i + pat.len())
    } else {
        Seq::empty()
    }
}

/// The name a drawn file gets: with renaming, the draw's number, a dot and
/// the file's type; otherwise its path after the first occurrence of the
/// workspace followed by the separator.
pub open spec fn drawn_name_spec(j: nat, is_rename: bool, ext: Seq<char>, path: Seq<char>, workspace: Seq<char>, sep: char) -> Seq<char> {
    if is_rename {
        decimal(j) + seq!['.'] + ext
    } else {
        after_first(path, workspace.push(sep))
    }
}

/// The name of the `j`-th file drawn for a folder.
pub fn drawn_name(j: usize, is_rename: bool, ext: &str, path: &str, workspace: &str, sep: char) -> (res: String)
    ensures
        res@ == drawn_name_spec(j as nat, is_rename, ext@, path@, workspace@, sep),
{
    if is_rename {
        let mut res = String::new();
        push_decimal(&mut res, j);
        push_char(&mut res, '.');
        res.append(ext);
        assert(res@ =~= drawn_name_spec(j as nat, is_rename, ext@, path@, workspace@, sep));
        return res;
    }
    let hay = chars_of(path);
    let mut pat = chars_of(workspace);
    pat.push(sep);
    match find_first(&hay, &pat) {
        Some(i) => {
            assert(occurs_at(hay@, pat@, i as int));
            assert(i + pat@.len() <= hay@.len());
            assert(hay@.len() == hay.len());
            assert(i + pat.len() <= usize::MAX);
            let mut res = String::new();
            let mut k: usize = i + pat.len();
            let start = i + pat.len();
            while k < hay.len()
                invariant
                    start <= k <= hay.len(),
                    res@ == hay@.subrange(start as int, k as int),
                decreases hay.len() - k,
            {
                push_char(&mut res, hay[k]);
                k = k + 1;
            }
            proof {
                let c = choose|c: int|
                    occurs_at(hay@, pat@, c) && forall|m: int| 0 <= m < c ==> !occurs_at(hay@, pat@, m);
                assert(occurs_at(hay@, pat@, i as int));
                assert(c == i);
                assert(res@ =~= hay@.skip(start as int));
            }
            res
        },
        None => String::new(),
    }
}

/// The path a drawn file is moved to: the folder, a separator and the
/// file's new name.
pub fn drawn_target_path(
    folder: &str,
    sep: char,
    j: usize,
    is_rename: bool,
    ext: &str,
    path: &str,
    workspace: &str,
) -> (res: String)
    ensures
        res@ == folder@.push(sep) + drawn_name_spec(j as nat, is_rename, ext@, path@, workspace@, sep),
{
    let name = drawn_name(j, is_rename, ext, path, workspace, sep);
    let mut res = String::from_str(folder);
    push_char(&mut res, sep);
    res.append(name.as_str());
    res
}


/// Drawing from `list` at the positions `picks`, one draw after another:
/// each draw takes out the item at its position, and the last item takes
/// its place. The items drawn, in order, and what is left.
pub open spec fn draws_spec<T>(list: Seq<T>, picks: Seq<int>) -> (Seq<T>, Seq<T>)
    decreases picks.len(),
{
    if picks.len() == 0 {
        (Seq::empty(), list)
    } else {
        let before = draws_spec(list, picks.drop_last());
        let rest = before.1;
        let k = picks.last();
        (before.0.push(rest[k]), rest.update(k, rest.last()).drop_last())
    }
}

/// Each position of `picks` lies in the list as it is when that draw is
/// made, the list having `len` items at first.
pub open spec fn picks_fit(len: int, picks: Seq<int>) -> bool {
    forall|k: int| 0 <= k < picks.len() ==> 0 <= #[trigger] picks[k] < len - k
}

/// Drawing takes each item at most once and loses none: what was drawn and
/// what is left together hold every item of the list as often as the list
/// does, and each draw shortens the list by one.
pub proof fn law_draws_keep_items<T>(list: Seq<T>, picks: Seq<int>)
    requires
        picks_fit(list.len() as int, picks),
    ensures
        draws_spec(list, picks).0.len() == picks.len(),
        draws_spec(list, picks).1.len() == list.len() - picks.len(),
        draws_spec(list, picks).0.to_multiset().add(draws_spec(list, picks).1.to_multiset())
            == list.to_multiset(),
    decreases picks.len(),
{
    broadcast use vstd::seq_lib::to_multiset_update;
    broadcast use vstd::seq_lib::to_multiset_build;
    broadcast use vstd::seq_lib::to_multiset_contains;
    if picks.len() > 0 {
        let p = picks.drop_last();
        assert(picks_fit(list.len() as int, p));
        law_draws_keep_items(list, p);
        let (drawn, rest) = draws_spec(list, p);
        let k = picks.last();
        assert(0 <= k < rest.len());
        let x = rest[k];
        let m = rest.update(k, rest.last());
        let r = m.drop_last();
        assert(m =~= r.push(m.last()));
        assert(m.last() == rest.last());
        let a = r.to_multiset();
        let b = rest.to_multiset();
        let l = rest.last();
        assert(m.to_multiset() == b.insert(l).remove(x));
        assert(r.push(m.last()).to_multiset() == a.insert(l));
        assert(a.insert(l) == b.insert(l).remove(x));
        assert(rest.contains(x));
        assert(b.count(x) > 0);
        assert(a =~= b.remove(x)) by {
            broadcast use vstd::multiset::group_multiset_axioms;
            assert forall|v: T| a.count(v) == b.remove(x).count(v) by {
                assert(a.insert(l).count(v) == b.insert(l).remove(x).count(v));
            }
        }
        assert(drawn.push(x).to_multiset() == drawn.to_multiset().insert(x));
        assert(drawn.push(x).to_multiset().add(r.to_multiset()) =~= list.to_multiset()) by {
            broadcast use vstd::multiset::group_multiset_axioms;
        }
    }
}

/// One folder of the single-threaded run: the date text in its name, its
/// path, the files drawn into it in order, and the path each of them is
/// moved to.
pub struct FolderPlan {
    pub date: String,
    pub path: String,
    pub drawn: Vec<DrawnFile>,
    pub targets: Vec<String>,
}

/// The folders of the single-threaded run, in order. When `stalls` holds,
/// the run ends at the last folder: it is owed files, but none is left.
pub struct SequentialPlan {
    pub folders: Vec<FolderPlan>,
    pub stalls: bool,
}

/// The files drawn into `folders`, folder after folder.
pub open spec fn all_drawn(folders: Seq<FolderPlan>) -> Seq<DrawnFile>
    decreases folders.len(),
{
    if folders.len() == 0 {
        Seq::empty()
    } else {
        all_drawn(folders.drop_last()) + folders.last().drawn@
    }
}

/// The number of files drawn into the folders before folder `q`.
pub open spec fn drawn_before(folders: Seq<FolderPlan>, q: int) -> int {
    all_drawn(folders.take(q)).len() as int
}

/// `f` is folder `q` (counted from zero): its date is a date text for
/// `pattern` (`is_date_text`: chrono's writing of an instant of its clock,
/// and `pattern` itself when it holds no `%`), its path is
/// `folder_path_spec` for folder `q + 1` with that date, and the `j`-th file
/// drawn into it goes to the folder under `drawn_name_spec` for draw
/// `j + 1`.
pub open spec fn folder_matches(
    f: FolderPlan,
    q: int,
    workspace: Seq<char>,
    sep: char,
    pattern: Seq<char>,
    name: Seq<char>,
    is_rename: bool,
    types: Seq<Seq<char>>,
) -> bool {
    &&& is_date_text(f.date@, pattern)
    &&& f.path@ == folder_path_spec(workspace, sep, f.date@, name, (q + 1) as nat)
    &&& f.targets.len() == f.drawn.len()
    &&& forall|j: int|
        0 <= j < f.drawn.len() ==> #[trigger] f.targets[j]@ == f.path@.push(sep) + drawn_name_spec(
            (j + 1) as nat,
            is_rename,
            types[f.drawn[j].type_index as int],
            f.drawn[j].path@,
            workspace,
            sep,
        )
}

/// Every planned folder is named after the clock: its date is what chrono
/// writes in the pattern at an instant the clock reported, and its path is
/// the workspace, the separator and that date, then the folder name, a dash
/// and the folder's number, character for character.
pub proof fn law_folder_named_after_clock(
    f: FolderPlan,
    q: int,
    workspace: Seq<char>,
    sep: char,
    pattern: Seq<char>,
    name: Seq<char>,
    is_rename: bool,
    types: Seq<Seq<char>>,
)
    requires
        0 <= q,
        folder_matches(f, q, workspace, sep, pattern, name, is_rename, types),
    ensures
        exists|ts: i64, ns: u32, off: i32|
            clock_reading(ts, ns, off) && #[trigger] strftime_text(pattern, ts, ns, off) == Some(
                f.date@,
            ),
        f.path@.len() == workspace.len() + 1 + f.date@.len() + name.len() + 1 + decimal(
            (q + 1) as nat,
        ).len(),
        f.path@.subrange(0, workspace.len() as int) == workspace,
        f.path@[workspace.len() as int] == sep,
        f.path@.subrange(workspace.len() + 1int, workspace.len() + 1int + f.date@.len()) == f.date@,
{
    let p = f.path@;
    assert(p == workspace.push(sep) + f.date@ + name + seq!['-'] + decimal((q + 1) as nat));
    assert(p.subrange(0, workspace.len() as int) =~= workspace);
    assert(p.subrange(workspace.len() + 1int, workspace.len() + 1int + f.date@.len()) =~= f.date@);
}

/// The smaller of two integers.
pub open spec fn min_int(a: int, b: int) -> int {
    if a < b {
        a
    } else {
        b
    }
}

/// Plans the single-threaded run: `num` folders, `per_folder` random draws
/// from `files` for each. A folder gets `per_folder` files or what is left
/// if that is fewer; a folder that is owed files when none is left stalls
/// the run, which ends there. Each folder is named with the current date in
/// `date_pattern`; `DateFormat` when chrono cannot write it (and there is a
/// folder to name).
#[verifier::spinoff_prover]
#[verifier::rlimit(40)]
pub fn plan_folders(
    files: Vec<DrawnFile>,
    num: usize,
    per_folder: usize,
    workspace: &str,
    sep: char,
    date_pattern: &str,
    name: &str,
    is_rename: bool,
    file_type: &Vec<String>,
) -> (res: Result<SequentialPlan, DataError>)
    requires
        forall|k: int| 0 <= k < files.len() ==> #[trigger] files[k].type_index < file_type.len(),
    ensures
        res is Err <==> num > 0 && !strftime_accepts(date_pattern@),
        res matches Err(e) ==> e == DataError::DateFormat,
        res matches Ok(p) ==> {
            &&& p.folders.len() <= num
            &&& !p.stalls ==> p.folders.len() == num
            &&& p.stalls ==> p.folders.len() > 0
            &&& forall|q: int|
                0 <= q < p.folders.len() ==> {
                    &&& (#[trigger] p.folders[q]).drawn.len() == min_int(
                        per_folder as int,
                        files.len() - drawn_before(p.folders@, q),
                    )
                    &&& (per_folder > 0 && drawn_before(p.folders@, q) == files.len()) <==> (
                    p.stalls && q == p.folders.len() - 1)
                    &&& folder_matches(
                        p.folders[q],
                        q,
                        workspace@,
                        sep,
                        date_pattern@,
                        name@,
                        is_rename,
                        texts(file_type@),
                    )
                }
            &&& exists|picks: Seq<int>|
                picks_fit(files.len() as int, picks) && draws_spec(files@, picks).0 == all_drawn(
                    p.folders@,
                )
        },
{
    let ghost n = files.len() as int;
    let ghost types = texts(file_type@);
    let mut list = files;
    let mut folders: Vec<FolderPlan> = Vec::new();
    let ghost mut picks: Seq<int> = Seq::empty();
    let mut stalls = false;
    let mut i: usize = 0;
    while i < num && !stalls
        invariant
            i <= num,
            folders.len() == i,
            types == texts(file_type@),
            n == files.len(),
            i > 0 ==> strftime_accepts(date_pattern@),
            stalls ==> i > 0,
            forall|k: int| 0 <= k < list.len() ==> #[trigger] list[k].type_index < file_type.len(),
            picks_fit(n, picks),
            draws_spec(files@, picks) == (all_drawn(folders@), list@),
            all_drawn(folders@).len() == picks.len(),
            list.len() == n - picks.len(),
            forall|q: int|
                0 <= q < folders.len() ==> {
                    &&& (#[trigger] folders[q]).drawn.len() == min_int(
                        per_folder as int,
                        n - drawn_before(folders@, q),
                    )
                    &&& (per_folder > 0 && drawn_before(folders@, q) == n) <==> (stalls && q
                        == folders.len() - 1)
                    &&& folder_matches(
                        folders[q],
                        q,
                        workspace@,
                        sep,
                        date_pattern@,
                        name@,
                        is_rename,
                        types,
                    )
                },
        decreases num - i,
    {
        let date = match date_text(date_pattern) {
            Ok(d) => d,
            Err(e) => {
                return Err(e);
            },
        };
        let path = folder_path(workspace, sep, date.as_str(), name, i + 1);
        let ghost old_folders = folders@;
        let ghost start_len = list.len() as int;
        let mut drawn: Vec<DrawnFile> = Vec::new();
        let mut targets: Vec<String> = Vec::new();
        if per_folder > 0 && list.len() == 0 {
            stalls = true;
        } else {
            let mut j: usize = 0;
            while j < per_folder && list.len() > 0
                invariant
                    j <= per_folder,
                    drawn.len() == j,
                    targets.len() == j,
                    list.len() + j == start_len,
                    start_len == n - all_drawn(old_folders).len(),
                    all_drawn(old_folders).len() + j == picks.len(),
                    list.len() == n - picks.len(),
                    types == texts(file_type@),
                    forall|k: int|
                        0 <= k < list.len() ==> #[trigger] list[k].type_index < file_type.len(),
                    forall|k: int|
                        0 <= k < drawn.len() ==> #[trigger] drawn[k].type_index < file_type.len(),
                    picks_fit(n, picks),
                    draws_spec(files@, picks) == (all_drawn(old_folders) + drawn@, list@),
                    forall|m: int|
                        0 <= m < drawn.len() ==> #[trigger] targets[m]@ == path@.push(sep)
                            + drawn_name_spec(
                            (m + 1) as nat,
                            is_rename,
                            types[drawn[m].type_index as int],
                            drawn[m].path@,
                            workspace@,
                            sep,
                        ),
                decreases per_folder - j,
            {
                let ghost before_list = list@;
                let ghost before_drawn = drawn@;
                let f = draw_file(&mut list);
                proof {
                    let k = choose|k: int|
                        0 <= k < before_list.len() && f == before_list[k] && list@
                            == before_list.update(k, before_list.last()).drop_last();
                    let np = picks.push(k);
                    assert(np.drop_last() =~= picks);
                    assert forall|m: int| 0 <= m < np.len() implies 0 <= #[trigger] np[m] < n - m by {
                        if m < picks.len() {
                            assert(np[m] == picks[m]);
                        }
                    }
                    assert(picks_fit(n, np));
                    picks = np;
                    assert(f.type_index < file_type.len());
                    assert forall|q: int| 0 <= q < list.len() implies #[trigger] list[q].type_index
                        < file_type.len() by {
                        if q == k {
                            assert(list@[q] == before_list.last());
                        } else {
                            assert(list@[q] == before_list[q]);
                        }
                    }
                }
                let t = drawn_target_path(
                    path.as_str(),
                    sep,
                    j + 1,
                    is_rename,
                    file_type[f.type_index].as_str(),
                    f.path.as_str(),
                    workspace,
                );
                drawn.push(f);
                targets.push(t);
                proof {
                    assert(all_drawn(old_folders) + drawn@ =~= (all_drawn(old_folders)
                        + before_drawn).push(drawn@.last()));
                }
                j = j + 1;
            }
        }
        let ghost fd = drawn@;
        let folder = FolderPlan { date, path, drawn, targets };
        proof {
            assert(folder_matches(folder, i as int, workspace@, sep, date_pattern@, name@, is_rename, types));
        }
        folders.push(folder);
        proof {
            assert(folders@.drop_last() =~= old_folders);
            assert(all_drawn(folders@) == all_drawn(old_folders) + fd);
            assert forall|q: int| 0 <= q < old_folders.len() implies folders@.take(q) =~= old_folders.take(q) by {}
            assert(folders@.take(i as int) =~= old_folders);
        }
        i = i + 1;
    }
    Ok(SequentialPlan { folders, stalls })
}

} // verus!
