//! Which files are read, and as what.

use vstd::prelude::*;
use vstd::string::*;
use crate::discovery::glued;
use crate::files;
use crate::files::{by_priority, extension_of, extract_editor_mod_name, extract_mod_name,
    module_priority, names_skipped_region, reference_db_file_type_for_path, target_db_for_module,
    FileEntry, FileModel, FileType, TargetDb};
use crate::order;
use crate::order::{sort_ranked, text_before, Ranked};
use crate::text;
use crate::text::{chars_of, contains, copy_list, owned, position_of, replace_char, split,
    starts_with, strip_prefix, text_eq};

verus! {

// ---------------------------------------------------------------------------
// Files on disk
// ---------------------------------------------------------------------------

/// A file that was found on disk.
#[derive(Debug)]
pub struct FoundFile {
    pub path: String,
    /// The path below the directory that was searched.
    pub rel_path: String,
    /// Whether the runtime effect that it was converted from is beside it.
    pub sibling_exists: bool,
}

/// What is known of a file that was found.
pub struct FoundModel {
    pub path: Seq<char>,
    pub rel_path: Seq<char>,
    pub sibling_exists: bool,
}

impl DeepView for FoundFile {
    type V = FoundModel;

    open spec fn deep_view(&self) -> FoundModel {
        FoundModel {
            path: self.path@,
            rel_path: self.rel_path@,
            sibling_exists: self.sibling_exists,
        }
    }
}

/// A path with forward slashes.
pub open spec fn slashed(path: Seq<char>) -> Seq<char> {
    text::swapped(path, '\\', '/')
}

/// A file on disk that belongs to a module.
pub open spec fn file_of(f: FoundModel, kind: FileType, m: Seq<char>) -> FileModel {
    FileModel {
        abs_path: f.path,
        rel_path: slashed(f.rel_path),
        file_type: kind,
        bytes: None,
        mod_name: m,
        target_db: files::target_of(m),
        priority: files::priority_of(m),
    }
}

/// A file of the unpacked game data.
pub open spec fn unpacked_file(f: FoundModel) -> Option<FileModel> {
    match files::file_kind(f.path, f.sibling_exists) {
        Some(kind) => Some(file_of(f, kind, files::module_of(slashed(f.rel_path)))),
        None => None,
    }
}

/// Whether a path leads into timeline directories.
pub open spec fn in_timeline(path: Seq<char>) -> bool {
    text::has_text(path, "/Timeline/"@) || text::has_text(path, "/TimelineTemplates/"@)
}

/// Whether a path leads into timeline directories.
pub fn is_in_timeline(path: &str) -> (r: bool)
    ensures
        r == in_timeline(path@),
{
    contains(path, "/Timeline/") || contains(path, "/TimelineTemplates/")
}

/// A file of an extracted package, unless it holds timeline data.
pub open spec fn extracted_file(f: FoundModel) -> Option<FileModel> {
    let rel = slashed(f.rel_path);
    if files::in_skipped_region(rel) || in_timeline(rel) {
        None
    } else {
        unpacked_file(f)
    }
}

/// A file of a mod, unless it holds timeline data.
pub open spec fn mod_file(f: FoundModel, mod_name: Seq<char>) -> Option<FileModel> {
    match files::file_kind(f.path, f.sibling_exists) {
        Some(kind) => if files::in_skipped_region(slashed(f.rel_path)) {
            None
        } else {
            Some(
                FileModel {
                    abs_path: f.path,
                    rel_path: slashed(f.rel_path),
                    file_type: kind,
                    bytes: None,
                    mod_name,
                    target_db: TargetDb::Base,
                    priority: 50,
                },
            )
        },
        None => None,
    }
}

/// A definition file of the editor. Other files beside the definitions are left
/// out.
pub open spec fn definition_file(f: FoundModel) -> Option<FileModel> {
    if files::file_kind(f.path, f.sibling_exists) == Some(FileType::AllSpark) {
        Some(
            FileModel {
                abs_path: f.path,
                rel_path: slashed(f.rel_path),
                file_type: FileType::AllSpark,
                bytes: None,
                mod_name: "AllSpark"@,
                target_db: TargetDb::Base,
                priority: 10,
            },
        )
    } else {
        None
    }
}

/// A source file of an effect in the editor. Other files beside the sources are
/// left out.
pub open spec fn editor_file(f: FoundModel) -> Option<FileModel> {
    if files::file_kind(f.path, f.sibling_exists) == Some(FileType::Effect) {
        Some(file_of(f, FileType::Effect, files::editor_module(slashed(f.rel_path))))
    } else {
        None
    }
}

/// The files that `pick` makes of those that were found.
pub open spec fn picked(
    found: Seq<FoundModel>,
    pick: spec_fn(FoundModel) -> Option<FileModel>,
) -> Seq<FileModel>
    decreases found.len(),
{
    if found.len() == 0 {
        Seq::empty()
    } else {
        let before = picked(found.drop_last(), pick);
        match pick(found.last()) {
            Some(f) => before.push(f),
            None => before,
        }
    }
}

fn make_file(f: &FoundFile, kind: FileType, mod_name: String) -> (r: FileEntry)
    ensures
        r.deep_view() == file_of(f.deep_view(), kind, mod_name@),
{
    let target_db = target_db_for_module(mod_name.as_str());
    let priority: u8 = module_priority(mod_name.as_str());
    FileEntry::from_disk(
        f.path.clone(),
        replace_char(f.rel_path.as_str(), '\\', '/'),
        kind,
        mod_name,
        target_db,
        priority,
    )
}

/// What a file of the unpacked game data is read as.
pub fn pick_unpacked(f: &FoundFile) -> (r: Option<FileEntry>)
    ensures
        r.deep_view() == unpacked_file(f.deep_view()),
{
    match reference_db_file_type_for_path(f.path.as_str(), f.sibling_exists) {
        Some(kind) => {
            let rel = replace_char(f.rel_path.as_str(), '\\', '/');
            Some(make_file(f, kind, extract_mod_name(rel.as_str())))
        },
        None => None,
    }
}

/// What a file of an extracted package is read as.
pub fn pick_extracted(f: &FoundFile) -> (r: Option<FileEntry>)
    ensures
        r.deep_view() == extracted_file(f.deep_view()),
{
    let rel = replace_char(f.rel_path.as_str(), '\\', '/');
    if names_skipped_region(rel.as_str()) || is_in_timeline(rel.as_str()) {
        None
    } else {
        pick_unpacked(f)
    }
}

/// What a file of a mod is read as.
pub fn pick_mod(f: &FoundFile, mod_name: &str) -> (r: Option<FileEntry>)
    ensures
        r.deep_view() == mod_file(f.deep_view(), mod_name@),
{
    match reference_db_file_type_for_path(f.path.as_str(), f.sibling_exists) {
        Some(kind) => {
            let rel = replace_char(f.rel_path.as_str(), '\\', '/');
            if names_skipped_region(rel.as_str()) {
                None
            } else {
                Some(
                    FileEntry::from_disk(
                        f.path.clone(),
                        rel,
                        kind,
                        owned(mod_name),
                        TargetDb::Base,
                        50,
                    ),
                )
            }
        },
        None => None,
    }
}

/// What a definition file of the editor is read as.
pub fn pick_definition(f: &FoundFile) -> (r: Option<FileEntry>)
    ensures
        r.deep_view() == definition_file(f.deep_view()),
{
    match reference_db_file_type_for_path(f.path.as_str(), f.sibling_exists) {
        Some(FileType::AllSpark) => Some(
            FileEntry::from_disk(
                f.path.clone(),
                replace_char(f.rel_path.as_str(), '\\', '/'),
                FileType::AllSpark,
                owned("AllSpark"),
                TargetDb::Base,
                10,
            ),
        ),
        _ => None,
    }
}

/// What a source file of the editor is read as.
pub fn pick_editor(f: &FoundFile) -> (r: Option<FileEntry>)
    ensures
        r.deep_view() == editor_file(f.deep_view()),
{
    match reference_db_file_type_for_path(f.path.as_str(), f.sibling_exists) {
        Some(FileType::Effect) => {
            let rel = replace_char(f.rel_path.as_str(), '\\', '/');
            Some(make_file(f, FileType::Effect, extract_editor_mod_name(rel.as_str())))
        },
        _ => None,
    }
}

fn keep(files: &mut Vec<FileEntry>, file: Option<FileEntry>)
    ensures
        final(files).deep_view() == (match file {
            Some(f) => old(files).deep_view().push(f.deep_view()),
            None => old(files).deep_view(),
        }),
{
    let ghost before = files.deep_view();
    match file {
        Some(f) => {
            files.push(f);
            assert(files.deep_view() =~= before.push(f.deep_view()));
        },
        None => {},
    }
}

/// The files of the unpacked game data, in the order in which they are inserted.
#[verifier::loop_isolation(false)]
pub fn collect_files(found: &Vec<FoundFile>) -> (r: Vec<FileEntry>)
    ensures
        r.deep_view() == files::insert_order(
            picked(found.deep_view(), |f: FoundModel| unpacked_file(f)),
        ),
{
    let ghost pick = |f: FoundModel| unpacked_file(f);
    let ghost all = found.deep_view();
    let mut r: Vec<FileEntry> = Vec::new();
    assert(r.deep_view() =~= picked(all.take(0), pick));
    let mut i: usize = 0;
    while i < found.len()
        invariant
            i <= found@.len(),
            all == found.deep_view(),
            r.deep_view() == picked(all.take(i as int), pick),
        decreases found@.len() - i,
    {
        assert(all.take(i + 1).drop_last() =~= all.take(i as int));
        assert(all[i as int] == found@[i as int].deep_view());
        keep(&mut r, pick_unpacked(&found[i]));
        i += 1;
    }
    assert(all.take(i as int) =~= all);
    by_priority(r)
}

/// The files of extracted packages, in the order in which they are inserted.
#[verifier::loop_isolation(false)]
pub fn collect_extracted_files(found: &Vec<FoundFile>) -> (r: Vec<FileEntry>)
    ensures
        r.deep_view() == files::insert_order(
            picked(found.deep_view(), |f: FoundModel| extracted_file(f)),
        ),
{
    let ghost pick = |f: FoundModel| extracted_file(f);
    let ghost all = found.deep_view();
    let mut r: Vec<FileEntry> = Vec::new();
    assert(r.deep_view() =~= picked(all.take(0), pick));
    let mut i: usize = 0;
    while i < found.len()
        invariant
            i <= found@.len(),
            all == found.deep_view(),
            r.deep_view() == picked(all.take(i as int), pick),
        decreases found@.len() - i,
    {
        assert(all.take(i + 1).drop_last() =~= all.take(i as int));
        assert(all[i as int] == found@[i as int].deep_view());
        keep(&mut r, pick_extracted(&found[i]));
        i += 1;
    }
    assert(all.take(i as int) =~= all);
    by_priority(r)
}

/// The files of a mod.
#[verifier::loop_isolation(false)]
pub fn collect_mod_files(found: &Vec<FoundFile>, mod_name: &str) -> (r: Vec<FileEntry>)
    ensures
        r.deep_view() == picked(found.deep_view(), |f: FoundModel| mod_file(f, mod_name@)),
{
    let ghost pick = |f: FoundModel| mod_file(f, mod_name@);
    let ghost all = found.deep_view();
    let mut r: Vec<FileEntry> = Vec::new();
    assert(r.deep_view() =~= picked(all.take(0), pick));
    let mut i: usize = 0;
    while i < found.len()
        invariant
            i <= found@.len(),
            all == found.deep_view(),
            r.deep_view() == picked(all.take(i as int), pick),
        decreases found@.len() - i,
    {
        assert(all.take(i + 1).drop_last() =~= all.take(i as int));
        assert(all[i as int] == found@[i as int].deep_view());
        keep(&mut r, pick_mod(&found[i], mod_name));
        i += 1;
    }
    assert(all.take(i as int) =~= all);
    r
}

/// The files of the editor: its definitions, and the sources of its mods.
#[verifier::loop_isolation(false)]
pub fn collect_editor_files(definitions: &Vec<FoundFile>, sources: &Vec<FoundFile>) -> (r: Vec<
    FileEntry,
>)
    ensures
        r.deep_view() == picked(definitions.deep_view(), |f: FoundModel| definition_file(f))
            + picked(sources.deep_view(), |f: FoundModel| editor_file(f)),
{
    let ghost one = |f: FoundModel| definition_file(f);
    let ghost two = |f: FoundModel| editor_file(f);
    let ghost all = definitions.deep_view();
    let ghost more = sources.deep_view();
    let mut r: Vec<FileEntry> = Vec::new();
    assert(r.deep_view() =~= picked(all.take(0), one));
    let mut i: usize = 0;
    while i < definitions.len()
        invariant
            i <= definitions@.len(),
            all == definitions.deep_view(),
            r.deep_view() == picked(all.take(i as int), one),
        decreases definitions@.len() - i,
    {
        assert(all.take(i + 1).drop_last() =~= all.take(i as int));
        assert(all[i as int] == definitions@[i as int].deep_view());
        keep(&mut r, pick_definition(&definitions[i]));
        i += 1;
    }
    assert(all.take(i as int) =~= all);
    let ghost start = r.deep_view();
    assert(start + picked(more.take(0), two) =~= start);
    let mut j: usize = 0;
    while j < sources.len()
        invariant
            j <= sources@.len(),
            more == sources.deep_view(),
            r.deep_view() == start + picked(more.take(j as int), two),
        decreases sources@.len() - j,
    {
        assert(more.take(j + 1).drop_last() =~= more.take(j as int));
        assert(more[j as int] == sources@[j as int].deep_view());
        keep(&mut r, pick_editor(&sources[j]));
        assert(r.deep_view() =~= start + picked(more.take(j + 1), two));
        j += 1;
    }
    assert(more.take(j as int) =~= more);
    r
}

// ---------------------------------------------------------------------------
// Directories
// ---------------------------------------------------------------------------

/// A directory below the unpacked data, by its parts.
#[derive(Debug)]
pub struct ScanRoot {
    pub parts: Vec<String>,
}

impl DeepView for ScanRoot {
    type V = Seq<Seq<char>>;

    open spec fn deep_view(&self) -> Seq<Seq<char>> {
        self.parts.deep_view()
    }
}

/// Whether a path stands before another: part by part.
pub open spec fn parts_lt(a: Seq<Seq<char>>, b: Seq<Seq<char>>) -> bool
    decreases a.len(),
{
    if b.len() == 0 {
        false
    } else if a.len() == 0 {
        true
    } else if a[0] == b[0] {
        parts_lt(a.drop_first(), b.drop_first())
    } else {
        order::text_lt(a[0], b[0])
    }
}

#[verifier::loop_isolation(false)]
fn parts_before(a: &Vec<String>, b: &Vec<String>) -> (r: bool)
    ensures
        r == parts_lt(a.deep_view(), b.deep_view()),
{
    let ghost x = a.deep_view();
    let ghost y = b.deep_view();
    assert(x.skip(0) =~= x);
    assert(y.skip(0) =~= y);
    let mut i: usize = 0;
    while i < a.len() && i < b.len()
        invariant
            i <= a@.len(),
            i <= b@.len(),
            x == a.deep_view(),
            y == b.deep_view(),
            parts_lt(x.skip(i as int), y.skip(i as int)) == parts_lt(x, y),
        decreases a@.len() - i,
    {
        assert(x.skip(i as int)[0] == a@[i as int]@);
        assert(y.skip(i as int)[0] == b@[i as int]@);
        if !text_eq(a[i].as_str(), b[i].as_str()) {
            return text_before(a[i].as_str(), b[i].as_str());
        }
        assert(x.skip(i as int).drop_first() =~= x.skip(i + 1));
        assert(y.skip(i as int).drop_first() =~= y.skip(i + 1));
        i += 1;
    }
    i < b.len()
}

/// Directories in the order of their parts.
impl Ranked for ScanRoot {
    open spec fn ranks_before(a: Seq<Seq<char>>, b: Seq<Seq<char>>) -> bool {
        parts_lt(a, b)
    }

    fn goes_before(&self, other: &Self) -> (r: bool) {
        parts_before(&self.parts, &other.parts)
    }
}

/// The directories that are always searched.
pub open spec fn target_dirs() -> Seq<Seq<Seq<char>>> {
    seq![
        seq!["Shared"@, "Public"@],
        seq!["Gustav"@, "Public"@],
        seq!["GustavX"@, "Public"@],
        seq!["English"@],
        seq!["Effects"@, "Public"@],
        seq!["Materials"@, "Public"@],
        seq!["Engine"@, "Public"@],
        seq!["Game"@, "Public"@],
    ]
}

/// Without directories that stand right behind themselves.
pub open spec fn without_repeats(s: Seq<Seq<Seq<char>>>) -> Seq<Seq<Seq<char>>>
    decreases s.len(),
{
    if s.len() <= 1 {
        s
    } else {
        let before = without_repeats(s.drop_last());
        if s[s.len() - 2] == s.last() {
            before
        } else {
            before.push(s.last())
        }
    }
}

/// The directories to be searched: those that always are, and the mods of the
/// given directories.
pub open spec fn scan_roots(dirs: Seq<Seq<char>>) -> Seq<Seq<Seq<char>>> {
    without_repeats(
        order::stable_sort(
            target_dirs() + Seq::new(dirs.len(), |i: int| seq![dirs[i], "Mods"@]),
            order::rank::<ScanRoot>(),
        ),
    )
}

fn root_of(a: &str, b: &str) -> (r: ScanRoot)
    ensures
        r.deep_view() == seq![a@, b@],
{
    let parts: Vec<String> = vec![owned(a), owned(b)];
    assert(parts.deep_view() =~= seq![a@, b@]);
    ScanRoot { parts }
}

fn list_target_dirs() -> (r: Vec<ScanRoot>)
    ensures
        r.deep_view() == target_dirs(),
{
    let english: Vec<String> = vec![owned("English")];
    assert(english.deep_view() =~= seq!["English"@]);
    let r: Vec<ScanRoot> = vec![
        root_of("Shared", "Public"),
        root_of("Gustav", "Public"),
        root_of("GustavX", "Public"),
        ScanRoot { parts: english },
        root_of("Effects", "Public"),
        root_of("Materials", "Public"),
        root_of("Engine", "Public"),
        root_of("Game", "Public"),
    ];
    assert(r.deep_view() =~= target_dirs());
    r
}

#[verifier::loop_isolation(false)]
fn same_parts(a: &Vec<String>, b: &Vec<String>) -> (r: bool)
    ensures
        r == (a.deep_view() == b.deep_view()),
{
    let ghost x = a.deep_view();
    let ghost y = b.deep_view();
    if a.len() != b.len() {
        assert(x.len() != y.len());
        return false;
    }
    let mut i: usize = 0;
    while i < a.len()
        invariant
            i <= a@.len(),
            a@.len() == b@.len(),
            x == a.deep_view(),
            y == b.deep_view(),
            forall|j: int| 0 <= j < i ==> #[trigger] x[j] == y[j],
        decreases a@.len() - i,
    {
        assert(x[i as int] == a@[i as int]@);
        assert(y[i as int] == b@[i as int]@);
        if !text_eq(a[i].as_str(), b[i].as_str()) {
            return false;
        }
        i += 1;
    }
    assert(x =~= y);
    true
}

fn copy_root(a: &ScanRoot) -> (r: ScanRoot)
    ensures
        r.deep_view() == a.deep_view(),
{
    ScanRoot { parts: copy_list(&a.parts) }
}

#[verifier::loop_isolation(false)]
fn drop_repeats(sorted: &Vec<ScanRoot>) -> (r: Vec<ScanRoot>)
    ensures
        r.deep_view() == without_repeats(sorted.deep_view()),
{
    let ghost all = sorted.deep_view();
    let mut r: Vec<ScanRoot> = Vec::new();
    assert(r.deep_view() =~= without_repeats(all.take(0)));
    let mut i: usize = 0;
    while i < sorted.len()
        invariant
            i <= sorted@.len(),
            all == sorted.deep_view(),
            r.deep_view() == without_repeats(all.take(i as int)),
        decreases sorted@.len() - i,
    {
        let ghost upto = all.take(i + 1);
        assert(upto.drop_last() =~= all.take(i as int));
        assert(all[i as int] == sorted@[i as int].deep_view());
        let ghost before = r.deep_view();
        let repeats = i > 0 && same_parts(&sorted[i - 1].parts, &sorted[i].parts);
        proof {
            if i > 0 {
                assert(upto[upto.len() - 2] == sorted@[i - 1].deep_view());
            } else {
                assert(upto =~= seq![all[0]]);
            }
        }
        if !repeats {
            let root = copy_root(&sorted[i]);
            r.push(root);
            assert(r.deep_view() =~= before.push(root.deep_view()));
            if i == 0 {
                assert(before =~= Seq::<Seq<Seq<char>>>::empty());
                assert(r.deep_view() =~= upto);
            }
        }
        i += 1;
    }
    assert(all.take(i as int) =~= all);
    r
}

/// The directories to be searched: those that always are, and the mods of the
/// given directories.
#[verifier::loop_isolation(false)]
pub fn collect_scan_roots(dirs: &Vec<String>) -> (r: Vec<ScanRoot>)
    ensures
        r.deep_view() == scan_roots(dirs.deep_view()),
{
    let ghost all = dirs.deep_view();
    let ghost want = Seq::new(all.len(), |i: int| seq![all[i], "Mods"@]);
    let mut roots = list_target_dirs();
    let ghost start = roots.deep_view();
    assert(start + want.take(0) =~= start);
    let mut i: usize = 0;
    while i < dirs.len()
        invariant
            i <= dirs@.len(),
            all == dirs.deep_view(),
            roots.deep_view() == start + want.take(i as int),
        decreases dirs@.len() - i,
    {
        assert(all[i as int] == dirs@[i as int]@);
        let ghost before = roots.deep_view();
        let root = root_of(dirs[i].as_str(), "Mods");
        roots.push(root);
        assert(roots.deep_view() =~= before.push(root.deep_view()));
        assert(want.take(i + 1) =~= want.take(i as int).push(want[i as int]));
        assert(roots.deep_view() =~= start + want.take(i + 1));
        i += 1;
    }
    assert(want.take(i as int) =~= want);
    let sorted = sort_ranked(roots);
    drop_repeats(&sorted)
}

// ---------------------------------------------------------------------------
// Entries of packages
// ---------------------------------------------------------------------------

/// The directories of packages that are read.
pub open spec fn public_roots() -> Seq<Seq<char>> {
    seq![
        "Public/Shared"@,
        "Public/SharedDev"@,
        "Public/Gustav"@,
        "Public/GustavDev"@,
        "Public/GustavX"@,
        "Public/Honour"@,
        "Public/HonourX"@,
        "Public/Engine"@,
        "Public/Game"@,
        "Public/PhotoMode"@,
    ]
}

/// The extensions of package entries that are read.
pub open spec fn extract_exts() -> Seq<Seq<char>> {
    seq!["lsf"@, "lsfx"@, "lsx"@, "txt"@, "xml"@, "loca"@]
}

/// Whether a path lies below a directory.
pub open spec fn below(root: Seq<char>, path: Seq<char>) -> bool {
    (root + "/"@).is_prefix_of(path)
}

/// Whether a path lies below one of several directories.
pub open spec fn below_any(roots: Seq<Seq<char>>, path: Seq<char>) -> bool {
    exists|i: int| 0 <= i < roots.len() && #[trigger] below(roots[i], path)
}

/// Whether a path lies below a directory of dice.
pub open spec fn below_dice(path: Seq<char>) -> bool {
    match text::stripped(path, "Public/DiceSet"@) {
        Some(rest) => rest.contains('/'),
        None => false,
    }
}

/// Which entries of packages are read.
#[derive(Debug)]
pub struct PipelineFilter {
    pub roots: Vec<&'static str>,
    pub extensions: Vec<&'static str>,
}

/// Whether an entry of a package is read: it lies below one of the directories,
/// or below one of dice, and has one of the extensions.
pub open spec fn passes(roots: Seq<Seq<char>>, exts: Seq<Seq<char>>, path: Seq<char>) -> bool {
    &&& below_any(roots, path) || below_dice(path)
    &&& match files::path_extension(path) {
        Some(e) => text::listed(exts, e),
        None => false,
    }
}

/// Which entries of the game's packages are read.
pub fn build_pipeline_filter() -> (r: Result<PipelineFilter, String>)
    ensures
        r matches Ok(f) && f.roots.deep_view() == public_roots() && f.extensions.deep_view()
            == extract_exts(),
{
    let roots: Vec<&'static str> = vec![
        "Public/Shared",
        "Public/SharedDev",
        "Public/Gustav",
        "Public/GustavDev",
        "Public/GustavX",
        "Public/Honour",
        "Public/HonourX",
        "Public/Engine",
        "Public/Game",
        "Public/PhotoMode",
    ];
    let extensions: Vec<&'static str> = vec!["lsf", "lsfx", "lsx", "txt", "xml", "loca"];
    assert(roots.deep_view() =~= public_roots());
    assert(extensions.deep_view() =~= extract_exts());
    Ok(PipelineFilter { roots, extensions })
}

fn is_below_dice(path: &str) -> (r: bool)
    ensures
        r == below_dice(path@),
{
    match strip_prefix(path, "Public/DiceSet") {
        Some(rest) => {
            let v = chars_of(rest.as_str());
            proof {
                text::lemma_char_at_or_end(rest@, '/', 0);
            }
            let i: usize = position_of(&v, '/', 0);
            assert(i < v@.len() ==> rest@[i as int] == '/');
            i < v.len()
        },
        None => false,
    }
}

impl PipelineFilter {
    #[verifier::loop_isolation(false)]
    fn is_below_root(&self, path: &str) -> (r: bool)
        ensures
            r == below_any(self.roots.deep_view(), path@),
    {
        let ghost all = self.roots.deep_view();
        let mut i: usize = 0;
        while i < self.roots.len()
            invariant
                i <= self.roots@.len(),
                all == self.roots.deep_view(),
                forall|j: int| 0 <= j < i ==> !#[trigger] below(all[j], path@),
            decreases self.roots@.len() - i,
        {
            assert(all[i as int] == self.roots@[i as int]@);
            let dir = glued(self.roots[i], "/");
            if starts_with(path, dir.as_str()) {
                assert(below(all[i as int], path@));
                return true;
            }
            i += 1;
        }
        false
    }

    #[verifier::loop_isolation(false)]
    fn has_extension(&self, ext: &str) -> (r: bool)
        ensures
            r == text::listed(self.extensions.deep_view(), ext@),
    {
        let ghost all = self.extensions.deep_view();
        let mut i: usize = 0;
        while i < self.extensions.len()
            invariant
                i <= self.extensions@.len(),
                all == self.extensions.deep_view(),
                forall|j: int| 0 <= j < i ==> #[trigger] all[j] != ext@,
            decreases self.extensions@.len() - i,
        {
            assert(all[i as int] == self.extensions@[i as int]@);
            if text_eq(self.extensions[i], ext) {
                return true;
            }
            i += 1;
        }
        false
    }

    /// Whether an entry of a package is read.
    pub fn matches_path(&self, path: &str) -> (r: bool)
        ensures
            r == passes(self.roots.deep_view(), self.extensions.deep_view(), path@),
    {
        if !self.is_below_root(path) && !is_below_dice(path) {
            return false;
        }
        match extension_of(path) {
            Some(e) => self.has_extension(e.as_str()),
            None => false,
        }
    }
}

/// An entry of a package.
#[derive(Debug)]
pub struct PakItem {
    pub path: String,
    pub deleted: bool,
    /// The number of bytes once it is unpacked.
    pub size: u64,
}

/// What an entry of a package is read as.
#[derive(Debug)]
pub struct PakPick {
    pub rel_path: String,
    pub file_type: FileType,
    pub mod_name: String,
    pub target_db: TargetDb,
    pub priority: u8,
    /// The number of bytes to read.
    pub byte_limit: usize,
}

impl DeepView for PakPick {
    type V = FileModel;

    open spec fn deep_view(&self) -> FileModel {
        FileModel {
            abs_path: self.rel_path@,
            rel_path: self.rel_path@,
            file_type: self.file_type,
            bytes: None,
            mod_name: self.mod_name@,
            target_db: self.target_db,
            priority: self.priority,
        }
    }
}

impl PakPick {
    /// The file, once its bytes were read.
    pub fn into_file(self, bytes: Vec<u8>) -> (r: FileEntry)
        ensures
            r.deep_view() == (FileModel { bytes: Some(bytes@), ..self.deep_view() }),
    {
        FileEntry::from_bytes(
            self.rel_path,
            self.file_type,
            self.mod_name,
            self.target_db,
            self.priority,
            bytes,
        )
    }
}

/// A file in a package that belongs to a module.
pub open spec fn packed_file(rel: Seq<char>, kind: FileType, m: Seq<char>) -> FileModel {
    FileModel {
        abs_path: rel,
        rel_path: rel,
        file_type: kind,
        bytes: None,
        mod_name: m,
        target_db: files::target_of(m),
        priority: files::priority_of(m),
    }
}

/// What an entry of a data package is read as.
pub open spec fn data_entry(
    pak_name: Seq<char>,
    path: Seq<char>,
    deleted: bool,
    passes: bool,
    sibling_exists: bool,
) -> Option<FileModel> {
    let rel = pak_name + "/"@ + slashed(path);
    if deleted || !passes || files::in_skipped_region(rel) || in_timeline(rel) {
        None
    } else {
        match files::file_kind(path, sibling_exists) {
            Some(kind) => Some(packed_file(rel, kind, files::module_of(rel))),
            None => None,
        }
    }
}

/// What an entry of a data package is read as. It fails where the entry is too
/// large to be held.
pub fn pick_data_entry(
    pak_name: &str,
    item: &PakItem,
    filter: &PipelineFilter,
    sibling_exists: bool,
) -> (r: Result<Option<PakPick>, String>)
    ensures
        ({
            let want = data_entry(
                pak_name@,
                item.path@,
                item.deleted,
                passes(filter.roots.deep_view(), filter.extensions.deep_view(), item.path@),
                sibling_exists,
            );
            match r {
                Ok(p) => {
                    &&& p.deep_view() == want
                    &&& p matches Some(pick) ==> pick.byte_limit == item.size
                },
                Err(e) => {
                    &&& want is Some
                    &&& item.size > usize::MAX
                    &&& e@ == "Pak entry too large to materialize: "@ + item.path@
                },
            }
        }),
{
    if item.deleted || !filter.matches_path(item.path.as_str()) {
        return Ok(None);
    }
    let rel_path = {
        let slashed_path = replace_char(item.path.as_str(), '\\', '/');
        let mut s = owned(pak_name);
        s.append("/");
        s.append(slashed_path.as_str());
        s
    };
    if names_skipped_region(rel_path.as_str()) || is_in_timeline(rel_path.as_str()) {
        return Ok(None);
    }
    match reference_db_file_type_for_path(item.path.as_str(), sibling_exists) {
        Some(file_type) => {
            if item.size > usize::MAX as u64 {
                return Err(glued("Pak entry too large to materialize: ", item.path.as_str()));
            }
            let mod_name = extract_mod_name(rel_path.as_str());
            let target_db = target_db_for_module(mod_name.as_str());
            let priority: u8 = module_priority(mod_name.as_str());
            Ok(
                Some(
                    PakPick {
                        rel_path,
                        file_type,
                        mod_name,
                        target_db,
                        priority,
                        byte_limit: item.size as usize,
                    },
                ),
            )
        },
        None => Ok(None),
    }
}

/// What an entry of a mod's package is read as.
pub open spec fn mod_entry(
    mod_name: Seq<char>,
    path: Seq<char>,
    deleted: bool,
    sibling_exists: bool,
) -> Option<FileModel> {
    let rel = slashed(path);
    if deleted || files::in_skipped_region(rel) {
        None
    } else {
        match files::file_kind(path, sibling_exists) {
            Some(kind) => Some(
                FileModel {
                    abs_path: rel,
                    rel_path: rel,
                    file_type: kind,
                    bytes: None,
                    mod_name,
                    target_db: TargetDb::Base,
                    priority: 50,
                },
            ),
            None => None,
        }
    }
}

/// What an entry of a mod's package is read as. It fails where the entry is too
/// large to be held.
pub fn pick_mod_entry(mod_name: &str, item: &PakItem, sibling_exists: bool) -> (r: Result<
    Option<PakPick>,
    String,
>)
    ensures
        ({
            let want = mod_entry(mod_name@, item.path@, item.deleted, sibling_exists);
            match r {
                Ok(p) => {
                    &&& p.deep_view() == want
                    &&& p matches Some(pick) ==> pick.byte_limit == item.size
                },
                Err(e) => {
                    &&& want is Some
                    &&& item.size > usize::MAX
                    &&& e@ == "Pak entry too large: "@ + item.path@
                },
            }
        }),
{
    if item.deleted {
        return Ok(None);
    }
    let rel_path = replace_char(item.path.as_str(), '\\', '/');
    if names_skipped_region(rel_path.as_str()) {
        return Ok(None);
    }
    match reference_db_file_type_for_path(item.path.as_str(), sibling_exists) {
        Some(file_type) => {
            if item.size > usize::MAX as u64 {
                return Err(glued("Pak entry too large: ", item.path.as_str()));
            }
            Ok(
                Some(
                    PakPick {
                        rel_path,
                        file_type,
                        mod_name: owned(mod_name),
                        target_db: TargetDb::Base,
                        priority: 50,
                        byte_limit: item.size as usize,
                    },
                ),
            )
        },
        None => Ok(None),
    }
}

/// Whether a package has a public directory: an entry that is not deleted lies
/// below it.
pub open spec fn has_public(items: Seq<PakItem>) -> bool {
    exists|i: int|
        0 <= i < items.len() && !(#[trigger] items[i]).deleted && "Public/"@.is_prefix_of(
            items[i].path@,
        )
}

/// Whether a package has a public directory.
#[verifier::loop_isolation(false)]
pub fn has_public_folder(items: &Vec<PakItem>) -> (r: bool)
    ensures
        r == has_public(items@),
{
    let mut i: usize = 0;
    while i < items.len()
        invariant
            i <= items@.len(),
            forall|j: int|
                0 <= j < i ==> (#[trigger] items@[j]).deleted || !"Public/"@.is_prefix_of(
                    items@[j].path@,
                ),
        decreases items@.len() - i,
    {
        if !items[i].deleted && starts_with(items[i].path.as_str(), "Public/") {
            return true;
        }
        i += 1;
    }
    false
}

/// The path that an entry of a localization package is filed under.
pub open spec fn loca_path(path: Seq<char>) -> Seq<char> {
    let p = slashed(path);
    "Localization/"@ + (match text::stripped(p, "Localization/"@) {
        Some(rest) => rest,
        None => p,
    })
}

/// The path that an entry of a localization package is filed under.
pub fn localization_rel_path(package_path: &str) -> (r: String)
    ensures
        r@ == loca_path(package_path@),
{
    let normalized = replace_char(package_path, '\\', '/');
    match strip_prefix(normalized.as_str(), "Localization/") {
        Some(rest) => glued("Localization/", rest.as_str()),
        None => glued("Localization/", normalized.as_str()),
    }
}

/// What an entry of a localization package is read as.
pub open spec fn loca_entry(path: Seq<char>, deleted: bool) -> Option<FileModel> {
    if !deleted && files::path_extension(path) == Some("loca"@) {
        Some(packed_file(loca_path(path), FileType::Loca, "English"@))
    } else {
        None
    }
}

/// What an entry of a localization package is read as. It fails where the entry
/// is too large to be held.
pub fn pick_loca_entry(item: &PakItem) -> (r: Result<Option<PakPick>, String>)
    ensures
        ({
            let want = loca_entry(item.path@, item.deleted);
            match r {
                Ok(p) => {
                    &&& p.deep_view() == want
                    &&& p matches Some(pick) ==> pick.byte_limit == item.size
                },
                Err(e) => {
                    &&& want is Some
                    &&& item.size > usize::MAX
                    &&& e@ == "Pak entry too large to materialize: "@ + item.path@
                },
            }
        }),
{
    if item.deleted {
        return Ok(None);
    }
    let is_loca = match extension_of(item.path.as_str()) {
        Some(e) => text_eq(e.as_str(), "loca"),
        None => false,
    };
    if !is_loca {
        return Ok(None);
    }
    if item.size > usize::MAX as u64 {
        return Err(glued("Pak entry too large to materialize: ", item.path.as_str()));
    }
    let mod_name = owned("English");
    let target_db = target_db_for_module("English");
    let priority: u8 = module_priority("English");
    Ok(
        Some(
            PakPick {
                rel_path: localization_rel_path(item.path.as_str()),
                file_type: FileType::Loca,
                mod_name,
                target_db,
                priority,
                byte_limit: item.size as usize,
            },
        ),
    )
}

// ---------------------------------------------------------------------------
// Whole packages
// ---------------------------------------------------------------------------

/// The entries of a package that are read, each with its place, given what each
/// entry is read as.
pub open spec fn chosen(wanted: Seq<Option<FileModel>>) -> Seq<(usize, FileModel)>
    decreases wanted.len(),
{
    if wanted.len() == 0 {
        Seq::empty()
    } else {
        let before = chosen(wanted.drop_last());
        match wanted.last() {
            Some(f) => before.push(((wanted.len() - 1) as usize, f)),
            None => before,
        }
    }
}

/// Whether the entry in place `i` is the first that is wanted but too large to be
/// held.
pub open spec fn first_too_large(wanted: Seq<Option<FileModel>>, items: Seq<PakItem>, i: int) -> bool {
    &&& 0 <= i < items.len()
    &&& wanted[i] is Some && items[i].size > usize::MAX
    &&& forall|j: int| 0 <= j < i ==> !((#[trigger] wanted[j]) is Some && items[j].size > usize::MAX)
}

/// Whether picks are those of the wanted entries, with as many bytes as each has.
pub open spec fn picks_all(
    picks: Vec<(usize, PakPick)>,
    wanted: Seq<Option<FileModel>>,
    items: Seq<PakItem>,
) -> bool {
    &&& picks.deep_view() == chosen(wanted)
    &&& forall|k: int|
        0 <= k < picks@.len() ==> (#[trigger] picks@[k]).0 < items.len() && picks@[k].1.byte_limit
            == items[picks@[k].0 as int].size
}

/// Whether the reading of a package ends as it must: with all wanted entries, or
/// with the first that is too large.
pub open spec fn reads(
    r: Result<Vec<(usize, PakPick)>, String>,
    wanted: Seq<Option<FileModel>>,
    items: Seq<PakItem>,
    complaint: Seq<char>,
) -> bool {
    match r {
        Ok(picks) => {
            &&& picks_all(picks, wanted, items)
            &&& forall|i: int|
                0 <= i < items.len() && (#[trigger] wanted[i]) is Some ==> items[i].size
                    <= usize::MAX
        },
        Err(e) => exists|i: int| #[trigger]
            first_too_large(wanted, items, i) && e@ == complaint + items[i].path@,
    }
}

/// What the entries of a mod's package are read as.
pub open spec fn mod_entries(mod_name: Seq<char>, items: Seq<PakItem>, siblings: Seq<bool>) -> Seq<
    Option<FileModel>,
> {
    Seq::new(
        items.len(),
        |i: int| mod_entry(mod_name, items[i].path@, items[i].deleted, siblings[i]),
    )
}

/// What the entries of a data package are read as.
pub open spec fn data_entries(
    pak_name: Seq<char>,
    items: Seq<PakItem>,
    filter: PipelineFilter,
    siblings: Seq<bool>,
) -> Seq<Option<FileModel>> {
    Seq::new(
        items.len(),
        |i: int|
            data_entry(
                pak_name,
                items[i].path@,
                items[i].deleted,
                passes(filter.roots.deep_view(), filter.extensions.deep_view(), items[i].path@),
                siblings[i],
            ),
    )
}

/// What the entries of a localization package are read as.
pub open spec fn loca_entries(items: Seq<PakItem>) -> Seq<Option<FileModel>> {
    Seq::new(items.len(), |i: int| loca_entry(items[i].path@, items[i].deleted))
}

fn add_pick(
    picks: &mut Vec<(usize, PakPick)>,
    i: usize,
    pick: Option<PakPick>,
    Ghost(wanted): Ghost<Seq<Option<FileModel>>>,
    Ghost(items): Ghost<Seq<PakItem>>,
)
    requires
        i < wanted.len() == items.len(),
        pick.deep_view() == wanted[i as int],
        pick matches Some(p) ==> p.byte_limit == items[i as int].size,
        picks_all(*old(picks), wanted.take(i as int), items),
    ensures
        picks_all(*final(picks), wanted.take(i + 1), items),
{
    assert(wanted.take(i + 1).drop_last() =~= wanted.take(i as int));
    if let Some(p) = pick {
        let ghost before = picks.deep_view();
        picks.push((i, p));
        assert(picks.deep_view() =~= before.push((i, p.deep_view())));
    }
}

/// The entries of a mod's package that are read, each with its place, and whether
/// the package has a public directory. `siblings` says of each entry whether the
/// runtime effect that it was converted from is on disk.
#[verifier::loop_isolation(false)]
pub fn collect_mod_files_from_pak(
    mod_name: &str,
    items: &Vec<PakItem>,
    siblings: &Vec<bool>,
) -> (r: (Result<Vec<(usize, PakPick)>, String>, bool))
    requires
        siblings@.len() == items@.len(),
    ensures
        reads(
            r.0,
            mod_entries(mod_name@, items@, siblings@),
            items@,
            "Pak entry too large: "@,
        ),
        r.1 == has_public(items@),
{
    let public = has_public_folder(items);
    let ghost wanted = mod_entries(mod_name@, items@, siblings@);
    let mut picks: Vec<(usize, PakPick)> = Vec::new();
    assert(picks.deep_view() =~= chosen(wanted.take(0)));
    let mut i: usize = 0;
    while i < items.len()
        invariant
            i <= items@.len(),
            wanted.len() == items@.len() == siblings@.len(),
            picks_all(picks, wanted.take(i as int), items@),
            forall|j: int|
                0 <= j < i && (#[trigger] wanted[j]) is Some ==> items@[j].size <= usize::MAX,
        decreases items@.len() - i,
    {
        match pick_mod_entry(mod_name, &items[i], siblings[i]) {
            Ok(pick) => add_pick(&mut picks, i, pick, Ghost(wanted), Ghost(items@)),
            Err(e) => {
                assert(first_too_large(wanted, items@, i as int));
                return (Err(e), public);
            },
        }
        i += 1;
    }
    assert(wanted.take(i as int) =~= wanted);
    (Ok(picks), public)
}

/// The entries of a data package that are read, each with its place.
#[verifier::loop_isolation(false)]
pub fn collect_data_entries_native(
    pak_name: &str,
    items: &Vec<PakItem>,
    filter: &PipelineFilter,
    siblings: &Vec<bool>,
) -> (r: Result<Vec<(usize, PakPick)>, String>)
    requires
        siblings@.len() == items@.len(),
    ensures
        reads(
            r,
            data_entries(pak_name@, items@, *filter, siblings@),
            items@,
            "Pak entry too large to materialize: "@,
        ),
{
    let ghost wanted = data_entries(pak_name@, items@, *filter, siblings@);
    let mut picks: Vec<(usize, PakPick)> = Vec::new();
    assert(picks.deep_view() =~= chosen(wanted.take(0)));
    let mut i: usize = 0;
    while i < items.len()
        invariant
            i <= items@.len(),
            wanted.len() == items@.len() == siblings@.len(),
            picks_all(picks, wanted.take(i as int), items@),
            forall|j: int|
                0 <= j < i && (#[trigger] wanted[j]) is Some ==> items@[j].size <= usize::MAX,
        decreases items@.len() - i,
    {
        match pick_data_entry(pak_name, &items[i], filter, siblings[i]) {
            Ok(pick) => add_pick(&mut picks, i, pick, Ghost(wanted), Ghost(items@)),
            Err(e) => {
                assert(first_too_large(wanted, items@, i as int));
                return Err(e);
            },
        }
        i += 1;
    }
    assert(wanted.take(i as int) =~= wanted);
    Ok(picks)
}

/// The entries of a localization package that are read, each with its place.
#[verifier::loop_isolation(false)]
pub fn collect_loca_entries_native(items: &Vec<PakItem>) -> (r: Result<
    Vec<(usize, PakPick)>,
    String,
>)
    ensures
        reads(r, loca_entries(items@), items@, "Pak entry too large to materialize: "@),
{
    let ghost wanted = loca_entries(items@);
    let mut picks: Vec<(usize, PakPick)> = Vec::new();
    assert(picks.deep_view() =~= chosen(wanted.take(0)));
    let mut i: usize = 0;
    while i < items.len()
        invariant
            i <= items@.len(),
            wanted.len() == items@.len(),
            picks_all(picks, wanted.take(i as int), items@),
            forall|j: int|
                0 <= j < i && (#[trigger] wanted[j]) is Some ==> items@[j].size <= usize::MAX,
        decreases items@.len() - i,
    {
        match pick_loca_entry(&items[i]) {
            Ok(pick) => add_pick(&mut picks, i, pick, Ghost(wanted), Ghost(items@)),
            Err(e) => {
                assert(first_too_large(wanted, items@, i as int));
                return Err(e);
            },
        }
        i += 1;
    }
    assert(wanted.take(i as int) =~= wanted);
    Ok(picks)
}

// ---------------------------------------------------------------------------
// Output paths
// ---------------------------------------------------------------------------

/// A path with a part more.
pub open spec fn pushed(dir: Seq<char>, part: Seq<char>) -> Seq<char> {
    if dir.len() == 0 || dir.last() == '/' {
        dir + part
    } else {
        dir + "/"@ + part
    }
}

/// A path with several parts more. Empty parts are left out.
pub open spec fn pushed_all(dir: Seq<char>, parts: Seq<Seq<char>>) -> Seq<char>
    decreases parts.len(),
{
    if parts.len() == 0 {
        dir
    } else {
        let before = pushed_all(dir, parts.drop_last());
        if parts.last().len() == 0 {
            before
        } else {
            pushed(before, parts.last())
        }
    }
}

fn push_part(dir: &str, part: &str) -> (r: String)
    ensures
        r@ == pushed(dir@, part@),
{
    let v = chars_of(dir);
    let n: usize = v.len();
    let mut r = owned(dir);
    if n > 0 && v[n - 1] != '/' {
        r.append("/");
    }
    r.append(part);
    r
}

#[verifier::loop_isolation(false)]
fn push_all(dir: &str, path: &str) -> (r: String)
    ensures
        r@ == pushed_all(dir@, text::pieces(path@, '/')),
{
    let parts = split(path, '/');
    let ghost all = parts.deep_view();
    let mut r = owned(dir);
    let mut i: usize = 0;
    while i < parts.len()
        invariant
            i <= parts@.len(),
            all == parts.deep_view(),
            r@ == pushed_all(dir@, all.take(i as int)),
        decreases parts@.len() - i,
    {
        assert(all.take(i + 1).drop_last() =~= all.take(i as int));
        assert(all[i as int] == parts@[i as int]@);
        if !parts[i].as_str().is_empty() {
            r = push_part(r.as_str(), parts[i].as_str());
        }
        i += 1;
    }
    assert(all.take(i as int) =~= all);
    r
}

/// Where an entry of a localization package is extracted to.
pub fn localization_output_path(loca_dir: &str, package_path: &str) -> (r: String)
    ensures
        r@ == pushed_all(
            loca_dir@,
            text::pieces(
                match text::stripped(slashed(package_path@), "Localization/"@) {
                    Some(rest) => rest,
                    None => slashed(package_path@),
                },
                '/',
            ),
        ),
{
    let normalized = replace_char(package_path, '\\', '/');
    match strip_prefix(normalized.as_str(), "Localization/") {
        Some(rest) => push_all(loca_dir, rest.as_str()),
        None => push_all(loca_dir, normalized.as_str()),
    }
}

/// Where an entry of a data package is extracted to.
pub fn package_output_path(dest_dir: &str, package_path: &str) -> (r: String)
    ensures
        r@ == pushed_all(dest_dir@, text::pieces(slashed(package_path@), '/')),
{
    let normalized = replace_char(package_path, '\\', '/');
    push_all(dest_dir, normalized.as_str())
}

} // verus!
