//! The state of the archive manager's window, and how it answers the
//! user's clicks, drops and dialog choices.

use vstd::prelude::*;
use crate::browser::FileEntry;
use crate::progress::ProgressState;
use crate::paths::{PathStyle, extension, file_stem, has_no_separator, lemma_file_stem_plain, parent_path, paths_equal, same_path, spec_extension, spec_file_name, spec_file_stem, spec_parent};
use crate::text::{ends_with, spec_ends_with, same_text};

verus! {

/// The views of a list of paths.
pub open spec fn path_views(paths: Seq<String>) -> Seq<Seq<char>> {
    paths.map_values(|p: String| p@)
}

/// Some path in `s` is the same path as `x`, read in `style`.
pub open spec fn holds_path(style: PathStyle, s: Seq<Seq<char>>, x: Seq<char>) -> bool {
    exists|i: int| 0 <= i < s.len() && same_path(style, #[trigger] s[i], x)
}

/// `s` without any path that is the same path as `x`, read in `style`; the
/// rest in order.
pub open spec fn without(style: PathStyle, s: Seq<Seq<char>>, x: Seq<char>) -> Seq<Seq<char>>
    decreases s.len(),
{
    if s.len() == 0 {
        s
    } else if same_path(style, s.last(), x) {
        without(style, s.drop_last(), x)
    } else {
        without(style, s.drop_last(), x).push(s.last())
    }
}

/// A path is in `s.push(z)` exactly when it is in `s` or is `z`.
pub proof fn lemma_push_holds(style: PathStyle, s: Seq<Seq<char>>, z: Seq<char>, y: Seq<char>)
    ensures
        holds_path(style, s.push(z), y) <==> (holds_path(style, s, y) || same_path(style, z, y)),
{
    if holds_path(style, s, y) {
        let k = choose|k: int| 0 <= k < s.len() && same_path(style, #[trigger] s[k], y);
        assert(s.push(z)[k] == s[k]);
    }
    if same_path(style, z, y) {
        assert(s.push(z)[s.len() as int] == z);
    }
    if holds_path(style, s.push(z), y) && !same_path(style, z, y) {
        let k = choose|k: int|
            0 <= k < s.push(z).len() && same_path(style, #[trigger] s.push(z)[k], y);
        assert(k < s.len());
        assert(s[k] == s.push(z)[k]);
    }
}

/// Removing `x` leaves no path that is `x`, and keeps every other path.
pub proof fn lemma_without_holds(style: PathStyle, s: Seq<Seq<char>>, x: Seq<char>, y: Seq<char>)
    ensures
        holds_path(style, without(style, s, x), y) <==> (holds_path(style, s, y) && !same_path(
            style,
            y,
            x,
        )),
    decreases s.len(),
{
    if s.len() > 0 {
        let d = s.drop_last();
        let r = without(style, d, x);
        lemma_without_holds(style, d, x, y);
        assert(s =~= d.push(s.last()));
        lemma_push_holds(style, d, s.last(), y);
        lemma_push_holds(style, r, s.last(), y);
    }
}

/// Removing a path that is not there changes nothing.
pub proof fn lemma_without_absent(style: PathStyle, s: Seq<Seq<char>>, x: Seq<char>)
    requires
        !holds_path(style, s, x),
    ensures
        without(style, s, x) == s,
    decreases s.len(),
{
    if s.len() > 0 {
        let d = s.drop_last();
        assert(s =~= d.push(s.last()));
        lemma_push_holds(style, d, s.last(), x);
        lemma_without_absent(style, d, x);
    }
}

/// The state of the window: the directory shown, its listing, the selected
/// paths and which dialog is open.
#[derive(Debug)]
pub struct LoserArApp {
    pub current_path: String,
    pub entries: Vec<FileEntry>,
    pub selected_paths: Vec<String>,
    pub show_compress_dialog: bool,
    pub show_extract_dialog: bool,
    /// How the paths of this system are read when they are compared.
    pub path_style: PathStyle,
}

impl LoserArApp {
    /// The selected paths, as texts.
    pub open spec fn selection(&self) -> Seq<Seq<char>> {
        path_views(self.selected_paths@)
    }

    /// A window showing `current_path`, before its listing is read.
    pub fn new(current_path: String, path_style: PathStyle) -> (app: LoserArApp)
        ensures
            app.current_path == current_path,
            app.path_style == path_style,
            app.entries@.len() == 0,
            app.selected_paths@.len() == 0,
            !app.show_compress_dialog,
            !app.show_extract_dialog,
    {
        LoserArApp {
            current_path,
            entries: Vec::new(),
            selected_paths: Vec::new(),
            show_compress_dialog: false,
            show_extract_dialog: false,
            path_style,
        }
    }

    /// Takes in a fresh reading of the current directory: the listing
    /// replaces the old one when the directory could be read, and the
    /// selection is cleared either way.
    pub fn refresh_dir(&mut self, listing: Option<Vec<FileEntry>>)
        ensures
            final(self).current_path == old(self).current_path,
            final(self).path_style == old(self).path_style,
            listing matches Some(l) ==> final(self).entries == l,
            listing is None ==> final(self).entries == old(self).entries,
            final(self).selected_paths@.len() == 0,
            final(self).show_compress_dialog == old(self).show_compress_dialog,
            final(self).show_extract_dialog == old(self).show_extract_dialog,
    {
        match listing {
            Some(l) => {
                self.entries = l;
            },
            None => {},
        }
        self.selected_paths = Vec::new();
    }

    /// Shows the directory `path`, with the listing read from it.
    pub fn navigate_to(&mut self, path: String, listing: Option<Vec<FileEntry>>)
        ensures
            final(self).current_path == path,
            final(self).path_style == old(self).path_style,
            listing matches Some(l) ==> final(self).entries == l,
            listing is None ==> final(self).entries == old(self).entries,
            final(self).selected_paths@.len() == 0,
            final(self).show_compress_dialog == old(self).show_compress_dialog,
            final(self).show_extract_dialog == old(self).show_extract_dialog,
    {
        self.current_path = path;
        self.refresh_dir(listing);
    }

    /// Whether `path` is selected: some selected path is the same path,
    /// component by component.
    pub fn is_selected(&self, path: &String) -> (r: bool)
        ensures
            r == holds_path(self.path_style, self.selection(), path@),
    {
        let mut i: usize = 0;
        while i < self.selected_paths.len()
            invariant
                i <= self.selected_paths@.len(),
                forall|k: int| 0 <= k < i ==> !same_path(
                    self.path_style,
                    #[trigger] self.selection()[k],
                    path@,
                ),
            decreases self.selected_paths@.len() - i,
        {
            if paths_equal(self.selected_paths[i].as_str(), path.as_str(), self.path_style) {
                assert(same_path(self.path_style, self.selection()[i as int], path@));
                return true;
            }
            i = i + 1;
        }
        false
    }

    /// The user clicked the entry at `path`: with Ctrl held, the path's
    /// selection is toggled (every selected path that is the same path is
    /// removed, or it is added at the end); otherwise it becomes the only
    /// selected path.
    pub fn click_entry(&mut self, path: &String, ctrl: bool)
        ensures
            final(self).current_path == old(self).current_path,
            final(self).path_style == old(self).path_style,
            final(self).entries == old(self).entries,
            final(self).show_compress_dialog == old(self).show_compress_dialog,
            final(self).show_extract_dialog == old(self).show_extract_dialog,
            ctrl && holds_path(old(self).path_style, old(self).selection(), path@)
                ==> final(self).selection() == without(old(self).path_style, old(self).selection(), path@),
            ctrl && !holds_path(old(self).path_style, old(self).selection(), path@)
                ==> final(self).selection() == old(self).selection().push(path@),
            !ctrl ==> final(self).selection() == seq![path@],
    {
        if ctrl {
            if self.is_selected(path) {
                let mut kept: Vec<String> = Vec::new();
                let mut i: usize = 0;
                while i < self.selected_paths.len()
                    invariant
                        i <= self.selected_paths@.len(),
                        path_views(kept@) == without(
                            self.path_style,
                            path_views(self.selected_paths@).subrange(0, i as int),
                            path@,
                        ),
                    decreases self.selected_paths@.len() - i,
                {
                    let ghost sub = path_views(self.selected_paths@).subrange(0, i + 1);
                    assert(sub.drop_last() =~= path_views(self.selected_paths@).subrange(
                        0,
                        i as int,
                    ));
                    assert(sub.last() == self.selected_paths@[i as int]@);
                    if !paths_equal(self.selected_paths[i].as_str(), path.as_str(), self.path_style) {
                        kept.push(self.selected_paths[i].clone());
                        assert(path_views(kept@) =~= without(self.path_style, sub.drop_last(), path@).push(
                            sub.last(),
                        ));
                    }
                    i = i + 1;
                }
                assert(path_views(self.selected_paths@).subrange(
                    0,
                    self.selected_paths@.len() as int,
                ) =~= path_views(self.selected_paths@));
                self.selected_paths = kept;
            } else {
                self.selected_paths.push(path.clone());
                assert(self.selection() =~= old(self).selection().push(path@));
            }
        } else {
            let mut only: Vec<String> = Vec::new();
            only.push(path.clone());
            self.selected_paths = only;
            assert(self.selection() =~= seq![path@]);
        }
    }

    /// The user double-clicked the listing's entry `index`. A directory is
    /// returned, to be shown next; a file whose name ends in ".zip" becomes
    /// the only selected path and the extract dialog opens; anything else
    /// does nothing.
    pub fn double_click_entry(&mut self, index: usize) -> (open_dir: Option<String>)
        requires
            index < old(self).entries@.len(),
        ensures
            final(self).current_path == old(self).current_path,
            final(self).path_style == old(self).path_style,
            final(self).entries == old(self).entries,
            final(self).show_compress_dialog == old(self).show_compress_dialog,
            ({
                let e = old(self).entries@[index as int];
                if e.is_dir {
                    &&& open_dir == Some(e.path)
                    &&& final(self).selected_paths == old(self).selected_paths
                    &&& final(self).show_extract_dialog == old(self).show_extract_dialog
                } else if spec_ends_with(e.name@, ".zip"@) {
                    &&& open_dir is None
                    &&& final(self).selection() == seq![e.path@]
                    &&& final(self).show_extract_dialog
                } else {
                    &&& open_dir is None
                    &&& final(self).selected_paths == old(self).selected_paths
                    &&& final(self).show_extract_dialog == old(self).show_extract_dialog
                }
            }),
    {
        let is_dir = self.entries[index].is_dir;
        if is_dir {
            return Some(self.entries[index].path.clone());
        }
        if ends_with(self.entries[index].name.as_str(), ".zip") {
            let path = self.entries[index].path.clone();
            let mut only: Vec<String> = Vec::new();
            only.push(path);
            self.selected_paths = only;
            self.show_extract_dialog = true;
            assert(self.selection() =~= seq![old(self).entries@[index as int].path@]);
        }
        None
    }

    /// Files were dropped on the window: when there are any, they become the
    /// selection and the compress dialog opens.
    pub fn drop_paths(&mut self, paths: Vec<String>)
        ensures
            final(self).current_path == old(self).current_path,
            final(self).path_style == old(self).path_style,
            final(self).entries == old(self).entries,
            final(self).show_extract_dialog == old(self).show_extract_dialog,
            paths@.len() > 0 ==> final(self).selected_paths == paths
                && final(self).show_compress_dialog,
            paths@.len() == 0 ==> final(self).selected_paths == old(self).selected_paths
                && final(self).show_compress_dialog == old(self).show_compress_dialog,
    {
        if paths.len() > 0 {
            self.selected_paths = paths;
            self.show_compress_dialog = true;
        }
    }

    /// The Compress button was pressed: with a selection, the compress
    /// dialog opens; without one, the result asks the caller to let the user
    /// pick files.
    pub fn request_compress(&mut self) -> (needs_picker: bool)
        ensures
            needs_picker == (old(self).selected_paths@.len() == 0),
            final(self).current_path == old(self).current_path,
            final(self).path_style == old(self).path_style,
            final(self).entries == old(self).entries,
            final(self).selected_paths == old(self).selected_paths,
            final(self).show_extract_dialog == old(self).show_extract_dialog,
            final(self).show_compress_dialog == (old(self).show_compress_dialog || !needs_picker),
    {
        if self.selected_paths.len() > 0 {
            self.show_compress_dialog = true;
            false
        } else {
            true
        }
    }

    /// The user picked `picked` to compress: they become the selection and
    /// the compress dialog opens.
    pub fn accept_picked_files(&mut self, picked: Vec<String>)
        ensures
            final(self).current_path == old(self).current_path,
            final(self).path_style == old(self).path_style,
            final(self).entries == old(self).entries,
            final(self).selected_paths == picked,
            final(self).show_compress_dialog,
            final(self).show_extract_dialog == old(self).show_extract_dialog,
    {
        self.selected_paths = picked;
        self.show_compress_dialog = true;
    }

    /// The Extract button was pressed. With a selection, the extract dialog
    /// opens when the first selected path has the extension "zip"; without
    /// one, the result asks the caller to let the user pick an archive.
    pub fn request_extract(&mut self) -> (needs_picker: bool)
        ensures
            needs_picker == (old(self).selected_paths@.len() == 0),
            final(self).current_path == old(self).current_path,
            final(self).path_style == old(self).path_style,
            final(self).entries == old(self).entries,
            final(self).selected_paths == old(self).selected_paths,
            final(self).show_compress_dialog == old(self).show_compress_dialog,
            final(self).show_extract_dialog == (old(self).show_extract_dialog || (!needs_picker
                && spec_extension(old(self).path_style, old(self).selected_paths@[0]@) == Some(
                "zip"@,
            ))),
    {
        if self.selected_paths.len() > 0 {
            match extension(self.selected_paths[0].as_str(), self.path_style) {
                Some(x) => {
                    if same_text(x.as_str(), "zip") {
                        self.show_extract_dialog = true;
                    }
                },
                None => {},
            }
            false
        } else {
            true
        }
    }

    /// The first selected path, or the empty path when nothing is selected.
    pub open spec fn first_selected(&self) -> Seq<char> {
        if self.selected_paths@.len() > 0 {
            self.selected_paths@[0]@
        } else {
            seq![]
        }
    }

    /// Where the extract dialog proposes to extract to: the directory that
    /// holds the first selected path, or the directory shown when that path
    /// has no parent.
    pub open spec fn spec_extract_destination(&self) -> Seq<char> {
        match spec_parent(self.path_style, self.first_selected()) {
            Some(d) => d,
            None => self.current_path@,
        }
    }

    /// The destination that the extract dialog proposes.
    pub fn extract_destination(&self) -> (d: String)
        ensures
            d@ == self.spec_extract_destination(),
    {
        let first = if self.selected_paths.len() > 0 {
            self.selected_paths[0].clone()
        } else {
            String::new()
        };
        match parent_path(first.as_str(), self.path_style) {
            Some(d) => d,
            None => self.current_path.clone(),
        }
    }

    /// The archive name that the compress dialog proposes: the stem of the
    /// first selected path (empty when it has none) followed by ".zip", or
    /// "archive.zip" when nothing is selected.
    pub open spec fn spec_proposed_archive_name(&self) -> Seq<char> {
        if self.selected_paths@.len() > 0 {
            match spec_file_stem(self.path_style, self.selected_paths@[0]@) {
                Some(t) => t + ".zip"@,
                None => ".zip"@,
            }
        } else {
            "archive.zip"@
        }
    }

    /// The archive name that the compress dialog proposes.
    pub fn proposed_archive_name(&self) -> (name: String)
        ensures
            name@ == self.spec_proposed_archive_name(),
    {
        if self.selected_paths.len() > 0 {
            let stem = match file_stem(self.selected_paths[0].as_str(), self.path_style) {
                Some(t) => t,
                None => String::new(),
            };
            let r = default_archive_name(Some(stem.as_str()));
            proof {
                reveal_strlit(".zip");
                if spec_file_stem(self.path_style, self.selected_paths@[0]@) is None {
                    assert(stem@ + ".zip"@ =~= ".zip"@);
                }
            }
            r
        } else {
            default_archive_name(None)
        }
    }

    /// The user picked the archive `picked` to extract: it becomes the only
    /// selected path and the extract dialog opens.
    pub fn accept_picked_archive(&mut self, picked: String)
        ensures
            final(self).current_path == old(self).current_path,
            final(self).path_style == old(self).path_style,
            final(self).entries == old(self).entries,
            final(self).selected_paths@ == seq![picked],
            final(self).show_compress_dialog == old(self).show_compress_dialog,
            final(self).show_extract_dialog,
    {
        let mut only: Vec<String> = Vec::new();
        only.push(picked);
        self.selected_paths = only;
        self.show_extract_dialog = true;
    }
}

/// The archive name that the compress dialog proposes: the stem of the
/// first selected path followed by ".zip", or "archive.zip" when nothing is
/// selected.
pub fn default_archive_name(first_stem: Option<&str>) -> (name: String)
    ensures
        first_stem matches Some(s) ==> name@ == s@ + ".zip"@,
        first_stem is None ==> name@ == "archive.zip"@,
{
    match first_stem {
        Some(s) => {
            let mut name = String::from_str(s);
            name.append(".zip");
            name
        },
        None => String::from_str("archive.zip"),
    }
}

/// The archive name that the compress dialog proposes ends in ".zip"; with
/// a selection, what comes before it is the start of the first selected
/// path's file name, read in the window's own path style (the whole name
/// when it has no extension, empty when the path has no file name), and so
/// it holds no separator of that style; without a selection it is
/// "archive.zip".
pub proof fn lemma_proposed_archive_name(app: LoserArApp)
    ensures
        ({
            let name = app.spec_proposed_archive_name();
            let stem = name.subrange(0, name.len() - 4);
            let first = app.selected_paths@[0]@;
            &&& name.len() >= 4
            &&& name.subrange(name.len() - 4, name.len() as int) == ".zip"@
            &&& app.selected_paths@.len() == 0 ==> name == "archive.zip"@
            &&& app.selected_paths@.len() > 0 ==> {
                &&& has_no_separator(app.path_style, stem)
                &&& spec_file_name(app.path_style, first) is None ==> stem.len() == 0
                &&& spec_file_name(app.path_style, first) is Some ==> ({
                    let f = spec_file_name(app.path_style, first)->0;
                    &&& stem.len() > 0
                    &&& stem.len() <= f.len()
                    &&& f.subrange(0, stem.len() as int) == stem
                    &&& spec_extension(app.path_style, first) is None ==> stem == f
                })
            }
        }),
{
    reveal_strlit(".zip");
    reveal_strlit("archive.zip");
    let name = app.spec_proposed_archive_name();
    if app.selected_paths@.len() > 0 {
        let first = app.selected_paths@[0]@;
        lemma_file_stem_plain(app.path_style, first);
        match spec_file_stem(app.path_style, first) {
            Some(t) => {
                assert(name.subrange(0, name.len() - 4) =~= t);
                assert(name.subrange(name.len() - 4, name.len() as int) =~= ".zip"@);
            },
            None => {
                assert(name.subrange(0, name.len() - 4) =~= Seq::<char>::empty());
                assert(name.subrange(name.len() - 4, name.len() as int) =~= ".zip"@);
            },
        }
    } else {
        assert(name.subrange(name.len() - 4, name.len() as int) =~= ".zip"@);
    }
}

/// A finished job reports no sizes exactly when it was an extraction.
pub open spec fn is_extraction_result(original_size: u64, compressed_size: u64) -> bool {
    original_size == 0 && compressed_size == 0
}

/// The heading of the dialog that shows how a job ended.
pub open spec fn spec_completion_heading(state: ProgressState) -> Option<Seq<char>> {
    match state {
        ProgressState::Finished { success, original_size, compressed_size, .. } => {
            let extraction = is_extraction_result(original_size, compressed_size);
            Some(
                if success {
                    if extraction {
                        "Extraction Complete!"@
                    } else {
                        "Compression Complete!"@
                    }
                } else {
                    if extraction {
                        "Extraction Failed"@
                    } else {
                        "Compression Failed"@
                    }
                },
            )
        },
        ProgressState::Error(_) => Some("Error"@),
        _ => None,
    }
}

/// The heading of the dialog that shows how a job ended, or `None` while no
/// job has ended.
pub fn completion_heading(state: &ProgressState) -> (heading: Option<String>)
    ensures
        heading matches Some(h) ==> spec_completion_heading(*state) == Some(h@),
        heading is None ==> spec_completion_heading(*state) is None,
{
    match state {
        ProgressState::Finished { success, original_size, compressed_size, .. } => {
            let extraction = *original_size == 0 && *compressed_size == 0;
            let h = if *success {
                if extraction {
                    String::from_str("Extraction Complete!")
                } else {
                    String::from_str("Compression Complete!")
                }
            } else {
                if extraction {
                    String::from_str("Extraction Failed")
                } else {
                    String::from_str("Compression Failed")
                }
            };
            Some(h)
        },
        ProgressState::Error(_) => Some(String::from_str("Error")),
        _ => None,
    }
}

/// The completion dialog names the kind of job from the sizes an ended job
/// reports: a job that reports any size (every compression of some data,
/// whatever size its archive came out at) is headed as a compression, and
/// one that reports both sizes as 0 (every extraction) as an extraction;
/// success picks "Complete!" or "Failed", and an error is headed "Error".
pub proof fn lemma_completion_heading_kind(state: ProgressState)
    ensures
        state matches ProgressState::Finished { success, original_size, compressed_size, .. } ==> {
            &&& (original_size > 0 || compressed_size > 0) && success ==> spec_completion_heading(
                state,
            ) == Some("Compression Complete!"@)
            &&& (original_size > 0 || compressed_size > 0) && !success
                ==> spec_completion_heading(state) == Some("Compression Failed"@)
            &&& original_size == 0 && compressed_size == 0 && success ==> spec_completion_heading(
                state,
            ) == Some("Extraction Complete!"@)
            &&& original_size == 0 && compressed_size == 0 && !success
                ==> spec_completion_heading(state) == Some("Extraction Failed"@)
        },
        state is Error ==> spec_completion_heading(state) == Some("Error"@),
        state is Idle || state is Scanning || state is Working ==> spec_completion_heading(state)
            is None,
{
}

/// Ctrl-clicking a path twice leaves the selection as it was when the path
/// was not selected, and without the path when it was.
pub proof fn lemma_ctrl_click_twice(style: PathStyle, s: Seq<Seq<char>>, x: Seq<char>)
    ensures
        !holds_path(style, s, x) ==> without(style, s.push(x), x) == s,
        holds_path(style, s, x) ==> !holds_path(style, without(style, s, x), x) && holds_path(
            style,
            without(style, s, x).push(x),
            x,
        ),
{
    if !holds_path(style, s, x) {
        assert(s.push(x).drop_last() =~= s);
        lemma_without_absent(style, s, x);
    } else {
        lemma_without_holds(style, s, x, x);
        lemma_push_holds(style, without(style, s, x), x, x);
    }
}

/// After a Ctrl-click a path is selected exactly when it was not before,
/// and every other path keeps its selection.
pub proof fn lemma_ctrl_click_toggles(style: PathStyle, s: Seq<Seq<char>>, x: Seq<char>, y: Seq<char>)
    ensures
        ({
            let after = if holds_path(style, s, x) {
                without(style, s, x)
            } else {
                s.push(x)
            };
            &&& holds_path(style, after, x) <==> !holds_path(style, s, x)
            &&& !same_path(style, y, x) ==> (holds_path(style, after, y) <==> holds_path(
                style,
                s,
                y,
            ))
        }),
{
    lemma_without_holds(style, s, x, x);
    lemma_without_holds(style, s, x, y);
    lemma_push_holds(style, s, x, x);
    lemma_push_holds(style, s, x, y);
}

} // verus!
