//! The download of one group of a search: where each file goes, which
//! files are already there, and what is said at the end.

use vstd::prelude::*;
use crate::linz_s3_filter::text::{chars_of, decimal, decimal_text};

verus! {

/// The name under which `sanitize_filename` lets a text stand as a file
/// name, for the given options of that crate.
pub uninterp spec fn sanitized_name(
    name: Seq<char>,
    windows: bool,
    truncate: bool,
    replacement: Seq<char>,
) -> Seq<char>;

/// Calls `sanitize_filename::sanitize_with_options` with the options
/// given. The contract claims only that the outcome is the one named
/// `sanitized_name`: the same text and options always give the same name.
#[verifier::external_body]
fn sanitize_with(name: &str, windows: bool, truncate: bool, replacement: &str) -> (r: String)
    ensures
        r@ == sanitized_name(name@, windows, truncate, replacement@),
{
    sanitize_filename::sanitize_with_options(
        name,
        sanitize_filename::Options { windows, truncate, replacement },
    )
}

/// The folder of a group: its title made a file name, cut to the length
/// that file systems take and with nothing put in place of what is removed.
/// `windows` asks for a name that Windows takes too.
pub open spec fn subfolder_of(title: Seq<char>, windows: bool) -> Seq<char> {
    sanitized_name(title, windows, true, Seq::empty())
}

/// The folder of a group with the given title.
pub fn subfolder_name(title: &str, windows: bool) -> (folder: String)
    ensures
        folder@ == subfolder_of(title@, windows),
{
    proof {
        reveal_strlit("");
        assert(""@ =~= Seq::<char>::empty());
    }
    sanitize_with(title, windows, true, "")
}

/// What follows the last slash of a location; the whole of a location
/// without a slash.
pub open spec fn after_last_slash(location: Seq<char>) -> Seq<char>
    decreases location.len(),
{
    if location.len() == 0 || location.last() == '/' {
        Seq::empty()
    } else {
        after_last_slash(location.drop_last()).push(location.last())
    }
}

proof fn lemma_after_last_slash(location: Seq<char>, e: int)
    requires
        0 <= e <= location.len(),
        forall|j: int| e <= j < location.len() ==> location[j] != '/',
        e == 0 || location[e - 1] == '/',
    ensures
        after_last_slash(location) == location.subrange(e, location.len() as int),
    decreases location.len() - e,
{
    if e < location.len() {
        let rest = location.drop_last();
        lemma_after_last_slash(rest, e);
        assert(rest.subrange(e, rest.len() as int).push(location.last()) =~= location.subrange(
            e,
            location.len() as int,
        ));
    } else {
        assert(location.subrange(e, location.len() as int) =~= Seq::<char>::empty());
    }
}

/// The file name of a location: its last part between slashes that is
/// neither empty nor a single dot, so that slashes and `/.` at the end of a
/// location do not count. A location has no file name when it has no such
/// part, and when that part is `..`.
pub open spec fn file_name(location: Seq<char>) -> Option<Seq<char>>
    decreases location.len(),
{
    let last = after_last_slash(location);
    if last.len() == 0 || last == seq!['.'] {
        if last.len() >= location.len() {
            None
        } else {
            file_name(location.subrange(0, location.len() - last.len() - 1))
        }
    } else if last == seq!['.', '.'] {
        None
    } else {
        Some(last)
    }
}

/// A name that can stand as the last part of a location: not empty, not
/// `.` or `..`, and without a slash.
pub open spec fn is_plain_name(name: Seq<char>) -> bool {
    &&& name.len() > 0
    &&& name != seq!['.']
    &&& name != seq!['.', '.']
    &&& forall|j: int| 0 <= j < name.len() ==> name[j] != '/'
}

/// A plain name after a slash is the file name of the location, and it
/// stays so when a slash follows it.
pub proof fn lemma_file_name_of_plain(dir: Seq<char>, name: Seq<char>)
    requires
        is_plain_name(name),
    ensures
        file_name(name) == Some(name),
        file_name(dir + seq!['/'] + name) == Some(name),
        file_name(dir + seq!['/'] + name + seq!['/']) == Some(name),
{
    lemma_after_last_slash(name, 0);
    assert(name.subrange(0, name.len() as int) =~= name);
    let location = dir + seq!['/'] + name;
    lemma_after_last_slash(location, (dir.len() + 1) as int);
    assert(location.subrange((dir.len() + 1) as int, location.len() as int) =~= name);
    let closed = location + seq!['/'];
    lemma_after_last_slash(closed, closed.len() as int);
    assert(closed.subrange(closed.len() as int, closed.len() as int) =~= Seq::<char>::empty());
    assert(closed.subrange(0, closed.len() - 1) =~= location);
}

/// The file name of a location.
pub fn file_name_of(url: &str) -> (name: Option<String>)
    ensures
        name.deep_view() == file_name(url@),
{
    let v = chars_of(url);
    let mut end: usize = v.len();
    assert(v@.subrange(0, end as int) =~= v@);
    loop
        invariant
            end <= v.len(),
            v@ == url@,
            file_name(v@) == file_name(v@.subrange(0, end as int)),
        decreases end,
    {
        let ghost part = v@.subrange(0, end as int);
        let mut start: usize = end;
        while start > 0 && v[start - 1] != '/'
            invariant
                start <= end <= v.len(),
                forall|j: int| start <= j < end ==> v@[j] != '/',
            decreases start,
        {
            start -= 1;
        }
        proof {
            lemma_after_last_slash(part, start as int);
            assert(part.subrange(start as int, end as int) =~= v@.subrange(
                start as int,
                end as int,
            ));
        }
        let ghost last = v@.subrange(start as int, end as int);
        let skipped = end - start == 0 || (end - start == 1 && v[start] == '.');
        let parent = end - start == 2 && v[start] == '.' && v[start + 1] == '.';
        proof {
            if end - start == 1 && v[start as int] == '.' {
                assert(last =~= seq!['.']);
            }
            if parent {
                assert(last =~= seq!['.', '.']);
            }
            if last == seq!['.'] {
                assert(last.len() == 1 && last[0] == '.');
            }
            if last == seq!['.', '.'] {
                assert(last.len() == 2 && last[0] == '.' && last[1] == '.');
            }
        }
        if skipped {
            if start == 0 {
                return None;
            }
            proof {
                assert(part.subrange(0, part.len() - last.len() - 1) =~= v@.subrange(
                    0,
                    start - 1,
                ));
            }
            end = start - 1;
        } else if parent {
            return None;
        } else {
            return Some(url.substring_char(start, end).to_owned());
        }
    }
}

/// One file to fetch: where it is, and the name it gets in the folder.
#[derive(Debug, PartialEq, Eq)]
pub struct Download {
    pub url: String,
    /// The name, where the location has one.
    pub file_name: Option<String>,
}

/// What a `Download` stands for.
pub ghost struct DownloadView {
    pub url: Seq<char>,
    pub file_name: Option<Seq<char>>,
}

impl DeepView for Download {
    type V = DownloadView;

    open spec fn deep_view(&self) -> DownloadView {
        DownloadView { url: self.url@, file_name: self.file_name.deep_view() }
    }
}

/// What is to be done with the chosen group.
#[derive(Debug, PartialEq, Eq)]
pub enum TileAction {
    /// Print each location, and touch nothing.
    PrintUrls(Vec<String>),
    /// Fetch each file into `subfolder` of the cache directory, unless it is
    /// there already.
    Download { subfolder: String, files: Vec<Download> },
}

/// What a `TileAction` stands for.
pub ghost enum TileActionView {
    PrintUrls(Seq<Seq<char>>),
    Download { subfolder: Seq<char>, files: Seq<DownloadView> },
}

impl DeepView for TileAction {
    type V = TileActionView;

    open spec fn deep_view(&self) -> TileActionView {
        match self {
            TileAction::PrintUrls(urls) => TileActionView::PrintUrls(urls.deep_view()),
            TileAction::Download { subfolder, files } => TileActionView::Download {
                subfolder: subfolder@,
                files: files.deep_view(),
            },
        }
    }
}

/// The files of a group: each location with its file name.
pub open spec fn downloads_of(urls: Seq<Seq<char>>) -> Seq<DownloadView> {
    Seq::new(urls.len(), |i: int| DownloadView { url: urls[i], file_name: file_name(urls[i]) })
}

/// What is to be done with a group of the given locations and title.
pub open spec fn tile_action(
    group: (Seq<Seq<char>>, Seq<char>),
    download: bool,
    windows: bool,
) -> TileActionView {
    if download {
        TileActionView::Download {
            subfolder: subfolder_of(group.1, windows),
            files: downloads_of(group.0),
        }
    } else {
        TileActionView::PrintUrls(group.0)
    }
}

/// What is to be done with the group at `index`: without `download` its
/// locations are printed; with it, each file goes under its own name into
/// the folder named after the group's title.
pub fn process_tile_list(
    tile_list: &Vec<(Vec<String>, String)>,
    index: usize,
    download: bool,
    windows: bool,
) -> (action: TileAction)
    requires
        index < tile_list.len(),
    ensures
        action.deep_view() == tile_action(tile_list.deep_view()[index as int], download, windows),
{
    let group = &tile_list[index];
    let ghost urls = group.0.deep_view();
    if download {
        let subfolder = subfolder_name(group.1.as_str(), windows);
        let mut files: Vec<Download> = Vec::new();
        let mut i: usize = 0;
        while i < group.0.len()
            invariant
                i <= group.0.len(),
                urls == group.0.deep_view(),
                files.len() == i,
                forall|j: int| 0 <= j < i ==> #[trigger] files.deep_view()[j] == downloads_of(urls)[j],
            decreases group.0.len() - i,
        {
            let ghost before = files.deep_view();
            let url = group.0[i].clone();
            let file_name = file_name_of(url.as_str());
            files.push(Download { url, file_name });
            assert(files.deep_view() =~= before.push(downloads_of(urls)[i as int]));
            i += 1;
        }
        assert(files.deep_view() =~= downloads_of(urls));
        TileAction::Download { subfolder, files }
    } else {
        let mut lines: Vec<String> = Vec::new();
        let mut i: usize = 0;
        while i < group.0.len()
            invariant
                i <= group.0.len(),
                urls == group.0.deep_view(),
                lines.len() == i,
                forall|j: int| 0 <= j < i ==> #[trigger] lines.deep_view()[j] == urls[j],
            decreases group.0.len() - i,
        {
            let ghost before = lines.deep_view();
            lines.push(group.0[i].clone());
            assert(lines.deep_view() =~= before.push(urls[i as int]));
            i += 1;
        }
        assert(lines.deep_view() =~= urls);
        TileAction::PrintUrls(lines)
    }
}

/// Whether the file at position `i` is already there; a file that
/// `present` does not speak of is not.
pub open spec fn is_present(present: Seq<bool>, i: int) -> bool {
    0 <= i < present.len() && present[i]
}

/// The positions of the first `n` files, in order.
pub open spec fn positions(n: nat) -> Seq<usize> {
    Seq::new(n, |i: int| i as usize)
}

/// A file that is not there yet.
pub open spec fn is_absent(present: Seq<bool>) -> spec_fn(usize) -> bool {
    |i: usize| !is_present(present, i as int)
}

/// The positions among the first `n` files of those that are not there yet,
/// in order.
pub open spec fn missing(present: Seq<bool>, n: nat) -> Seq<usize> {
    positions(n).filter(is_absent(present))
}

/// The files of a download in two parts: how many are already there, and
/// the positions of those to fetch.
#[derive(Debug, PartialEq, Eq)]
pub struct Schedule {
    pub cache_count: usize,
    pub pending: Vec<usize>,
}

/// Where every file is already there, nothing is left to fetch: a second
/// run over the files of a first run fetches nothing.
pub proof fn lemma_all_present_nothing_missing(present: Seq<bool>, n: nat)
    requires
        n <= usize::MAX,
        forall|i: int| 0 <= i < n ==> is_present(present, i),
    ensures
        missing(present, n).len() == 0,
{
    positions(n).lemma_all_neg_filter_empty(is_absent(present));
}

/// Parts the `count` files of a download by whether they are already on
/// disk: a file that is there is counted and not fetched again.
pub fn schedule_downloads(present: &Vec<bool>, count: usize) -> (schedule: Schedule)
    ensures
        schedule.pending@ == missing(present@, count as nat),
        schedule.cache_count + schedule.pending.len() == count,
        (forall|i: int| 0 <= i < count ==> is_present(present@, i)) ==> schedule.pending.len() == 0
            && schedule.cache_count == count,
{
    let ghost absent = is_absent(present@);
    let mut cache_count: usize = 0;
    let mut pending: Vec<usize> = Vec::new();
    let mut i: usize = 0;
    assert(positions(0).filter(absent) =~= Seq::<usize>::empty()) by {
        reveal(Seq::filter);
    }
    while i < count
        invariant
            i <= count,
            absent == is_absent(present@),
            pending@ == positions(i as nat).filter(absent),
            cache_count + pending.len() == i,
        decreases count - i,
    {
        proof {
            positions(i as nat).lemma_filter_push(i, absent);
            assert(positions(i as nat).push(i) =~= positions((i + 1) as nat));
        }
        if i < present.len() && present[i] {
            cache_count += 1;
        } else {
            pending.push(i);
        }
        i += 1;
    }
    proof {
        if forall|i: int| 0 <= i < count ==> is_present(present@, i) {
            lemma_all_present_nothing_missing(present@, count as nat);
        }
    }
    Schedule { cache_count, pending }
}

/// What is said at the end of a download.
pub open spec fn summary_of(cache_count: usize, download_count: usize, interrupted: bool) -> Seq<
    char,
> {
    if interrupted {
        "Download process interrupted by user"@
    } else {
        decimal(cache_count as nat) + " files found in cache, "@ + decimal(download_count as nat)
            + " files downloaded"@
    }
}

/// What is said at the end of a download: that it was interrupted, or how
/// many files were found in the cache and how many were fetched.
pub fn download_summary(cache_count: usize, download_count: usize, interrupted: bool) -> (text:
    String)
    ensures
        text@ == summary_of(cache_count, download_count, interrupted),
{
    if interrupted {
        "Download process interrupted by user".to_owned()
    } else {
        let mut text = decimal_text(cache_count);
        text.append(" files found in cache, ");
        let fetched = decimal_text(download_count);
        text.append(fetched.as_str());
        text.append(" files downloaded");
        text
    }
}

} // verus!
