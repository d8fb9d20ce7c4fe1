//! Which game files are read, and where they belong.

use vstd::prelude::*;
use vstd::string::*;
use crate::order::{sort_ranked, Ranked};
use crate::order;
use crate::text;
use crate::text::{chars_of, contains, copy_opt, ends_with, owned, split, text_eq, text_of,
    to_ascii_lower, word_char};

verus! {

/// Which reference database a file belongs to.
#[derive(Debug, Clone, Copy, PartialEq, Eq, Structural)]
pub enum TargetDb {
    /// The vanilla modules.
    Base,
    /// The honour mode modules.
    Honor,
}

/// Options of a build.
#[derive(Debug)]
pub struct BuildOptions {
    /// Whether to compact the database after it was filled.
    pub vacuum: bool,
    /// Whether to build on disk; without a choice the available memory decides.
    pub force_disk: Option<bool>,
    /// The base database that an honour database looks rows up in.
    pub fallback_base_db_path: Option<String>,
}

impl Clone for BuildOptions {
    fn clone(&self) -> (r: Self)
        ensures
            r.vacuum == self.vacuum,
            r.force_disk == self.force_disk,
            r.fallback_base_db_path.deep_view() == self.fallback_base_db_path.deep_view(),
    {
        BuildOptions {
            vacuum: self.vacuum,
            force_disk: self.force_disk,
            fallback_base_db_path: copy_opt(&self.fallback_base_db_path),
        }
    }
}

impl Default for BuildOptions {
    fn default() -> (r: Self)
        ensures
            !r.vacuum,
            r.force_disk is None,
            r.fallback_base_db_path is None,
    {
        BuildOptions { vacuum: false, force_disk: None, fallback_base_db_path: None }
    }
}

/// The number of files that are parsed at a time and the number of parsed
/// batches that may wait, by the available memory in bytes.
pub fn adaptive_pipeline_params(available: Option<u64>) -> (r: (usize, usize))
    ensures
        r == (match available {
            Some(bytes) => if bytes >= 0x8_0000_0000 {
                (1500usize, 8usize)
            } else if bytes >= 0x4_0000_0000 {
                (1000usize, 6usize)
            } else if bytes >= 0x2_0000_0000 {
                (750usize, 4usize)
            } else {
                (500usize, 2usize)
            },
            None => (500usize, 2usize),
        }),
{
    match available {
        Some(bytes) => {
            let gb: u64 = bytes / 0x4000_0000;
            if gb >= 32 {
                (1500, 8)
            } else if gb >= 16 {
                (1000, 6)
            } else if gb >= 8 {
                (750, 4)
            } else {
                (500, 2)
            }
        },
        None => (500, 2),
    }
}

/// Whether to build in memory: as the options say, or else where at least four
/// gigabytes are available or the amount is not known.
pub fn should_use_in_memory(options: &BuildOptions, available: Option<u64>) -> (r: bool)
    ensures
        r == (match options.force_disk {
            Some(force) => !force,
            None => match available {
                Some(bytes) => bytes >= 0x1_0000_0000,
                None => true,
            },
        }),
{
    match options.force_disk {
        Some(force) => !force,
        None => match available {
            Some(bytes) => bytes >= 0x1_0000_0000,
            None => true,
        },
    }
}

/// The kinds of files that are read.
#[derive(Debug, Clone, Copy, PartialEq, Eq, Structural)]
pub enum FileType {
    Lsx,
    Stats,
    Loca,
    /// Component and module definitions.
    AllSpark,
    /// Effect sources of the toolkit.
    Effect,
}

impl FileType {
    /// The name of the kind.
    pub open spec fn label(self) -> Seq<char> {
        match self {
            FileType::Lsx => "lsx"@,
            FileType::Stats => "stats"@,
            FileType::Loca => "loca"@,
            FileType::AllSpark => "allspark"@,
            FileType::Effect => "effect"@,
        }
    }

    /// The name of the kind.
    pub fn as_str(&self) -> (r: &'static str)
        ensures
            r@ == self.label(),
    {
        match self {
            FileType::Lsx => "lsx",
            FileType::Stats => "stats",
            FileType::Loca => "loca",
            FileType::AllSpark => "allspark",
            FileType::Effect => "effect",
        }
    }
}

// ---------------------------------------------------------------------------
// Paths
// ---------------------------------------------------------------------------

/// A path without the separators and `.` parts at its end.
pub open spec fn path_core(s: Seq<char>) -> Seq<char>
    decreases s.len(),
{
    if s.len() > 0 && s.last() == '/' {
        path_core(s.drop_last())
    } else if s.len() > 1 && s.last() == '.' && s[s.len() - 2] == '/' {
        path_core(s.drop_last())
    } else {
        s
    }
}

/// The place behind the last occurrence of a character, or zero.
pub open spec fn after_last(s: Seq<char>, c: char) -> int
    decreases s.len(),
{
    if s.len() == 0 {
        0
    } else if s.last() == c {
        s.len() as int
    } else {
        after_last(s.drop_last(), c)
    }
}

/// `after_last` lies in the text.
pub proof fn lemma_after_last(s: Seq<char>, c: char)
    ensures
        0 <= after_last(s, c) <= s.len(),
        after_last(s, c) > 0 ==> s[after_last(s, c) - 1] == c,
        forall|k: int| after_last(s, c) <= k < s.len() ==> s[k] != c,
    decreases s.len(),
{
    if s.len() > 0 && s.last() != c {
        lemma_after_last(s.drop_last(), c);
        assert forall|k: int| after_last(s, c) <= k < s.len() implies s[k] != c by {
            if k < s.len() - 1 {
                assert(s.drop_last()[k] != c);
            }
        }
    }
}

/// The name of the file that a path leads to.
pub open spec fn file_name(path: Seq<char>) -> Option<Seq<char>> {
    let core = path_core(path);
    let name = core.skip(after_last(core, '/'));
    if name.len() == 0 || name == "."@ || name == ".."@ {
        None
    } else {
        Some(name)
    }
}

/// What follows the last dot of a file name that does not start with it.
pub open spec fn name_extension(name: Seq<char>) -> Option<Seq<char>> {
    let at = after_last(name, '.');
    if at > 1 {
        Some(name.skip(at))
    } else {
        None
    }
}

/// The extension of the file that a path leads to, with its ASCII letters in
/// lower case.
pub open spec fn path_extension(path: Seq<char>) -> Option<Seq<char>> {
    match file_name(path) {
        Some(name) => match name_extension(name) {
            Some(e) => Some(text::ascii_lowered(e)),
            None => None,
        },
        None => None,
    }
}

#[verifier::loop_isolation(false)]
fn core_len(v: &Vec<char>) -> (n: usize)
    ensures
        n <= v@.len(),
        v@.take(n as int) == path_core(v@),
{
    let mut n: usize = v.len();
    assert(v@.take(n as int) =~= v@);
    while n > 0 && (v[n - 1] == '/' || (n > 1 && v[n - 1] == '.' && v[n - 2] == '/'))
        invariant
            n <= v@.len(),
            path_core(v@.take(n as int)) == path_core(v@),
        decreases n,
    {
        assert(v@.take(n as int).drop_last() =~= v@.take(n - 1));
        n -= 1;
    }
    n
}

#[verifier::loop_isolation(false)]
pub(crate) fn place_after_last(v: &Vec<char>, from: usize, to: usize, c: char) -> (n: usize)
    requires
        from <= to <= v@.len(),
    ensures
        from <= n <= to,
        n == from + after_last(v@.subrange(from as int, to as int), c),
{
    let mut n: usize = to;
    let ghost s = v@.subrange(from as int, to as int);
    while n > from && v[n - 1] != c
        invariant
            from <= n <= to,
            after_last(v@.subrange(from as int, n as int), c) == after_last(s, c),
        decreases n,
    {
        assert(v@.subrange(from as int, n as int).drop_last() =~= v@.subrange(from as int, n - 1));
        n -= 1;
    }
    n
}

/// The name of the file that a path leads to.
pub fn file_name_of(path: &str) -> (r: Option<String>)
    ensures
        r.deep_view() == file_name(path@),
{
    let v = chars_of(path);
    let n: usize = core_len(&v);
    let at: usize = place_after_last(&v, 0, n, '/');
    assert(v@.subrange(0, n as int) =~= v@.take(n as int));
    let name = text_of(&v, at, n);
    assert(name@ =~= path_core(path@).skip(at as int));
    if name.as_str().is_empty() || text_eq(name.as_str(), ".") || text_eq(name.as_str(), "..") {
        None
    } else {
        Some(name)
    }
}

fn extension_of_name(name: &str) -> (r: Option<String>)
    ensures
        r.deep_view() == name_extension(name@),
{
    let v = chars_of(name);
    let at: usize = place_after_last(&v, 0, v.len(), '.');
    assert(v@.subrange(0, v@.len() as int) =~= v@);
    if at > 1 {
        assert(v@.subrange(at as int, v@.len() as int) =~= v@.skip(at as int));
        Some(text_of(&v, at, v.len()))
    } else {
        None
    }
}

/// The extension of the file that a path leads to, in lower case.
pub fn extension_of(path: &str) -> (r: Option<String>)
    ensures
        r.deep_view() == path_extension(path@),
{
    match file_name_of(path) {
        Some(name) => match extension_of_name(name.as_str()) {
            Some(e) => Some(to_ascii_lower(e.as_str())),
            None => None,
        },
        None => None,
    }
}

/// A file name without its extension.
pub open spec fn name_stem(name: Seq<char>) -> Seq<char> {
    let at = after_last(name, '.');
    if at > 1 {
        name.take(at - 1)
    } else {
        name
    }
}

/// The name, without its extension, of the file that a path leads to.
pub open spec fn path_stem(path: Seq<char>) -> Seq<char> {
    match file_name(path) {
        Some(name) => name_stem(name),
        None => Seq::empty(),
    }
}

/// The name, without its extension, of the file that a path leads to.
pub fn stem_of(path: &str) -> (r: String)
    ensures
        r@ == path_stem(path@),
{
    match file_name_of(path) {
        Some(name) => {
            let v = chars_of(name.as_str());
            let at: usize = place_after_last(&v, 0, v.len(), '.');
            assert(v@.subrange(0, v@.len() as int) =~= v@);
            if at > 1 {
                assert(v@.subrange(0, at - 1) =~= v@.take(at - 1));
                text_of(&v, 0, at - 1)
            } else {
                name
            }
        },
        None => String::new(),
    }
}

/// A file to be read.
#[derive(Debug)]
pub struct FileEntry {
    pub abs_path: String,
    pub rel_path: String,
    pub file_type: FileType,
    /// The contents, where they are in memory.
    pub bytes: Option<Vec<u8>>,
    /// The module that the file belongs to.
    pub mod_name: String,
    pub target_db: TargetDb,
    /// Where two files hold the same key, the higher priority wins: files go in
    /// with the highest priority first, and the first row of a key stays.
    pub priority: u8,
}

/// What is known of a file.
pub struct FileModel {
    pub abs_path: Seq<char>,
    pub rel_path: Seq<char>,
    pub file_type: FileType,
    pub bytes: Option<Seq<u8>>,
    pub mod_name: Seq<char>,
    pub target_db: TargetDb,
    pub priority: u8,
}

impl DeepView for FileEntry {
    type V = FileModel;

    open spec fn deep_view(&self) -> FileModel {
        FileModel {
            abs_path: self.abs_path@,
            rel_path: self.rel_path@,
            file_type: self.file_type,
            bytes: match self.bytes {
                Some(b) => Some(b@),
                None => None,
            },
            mod_name: self.mod_name@,
            target_db: self.target_db,
            priority: self.priority,
        }
    }
}

impl FileEntry {
    /// A file on disk.
    pub fn from_disk(
        abs_path: String,
        rel_path: String,
        file_type: FileType,
        mod_name: String,
        target_db: TargetDb,
        priority: u8,
    ) -> (r: Self)
        ensures
            r.deep_view() == (FileModel {
                abs_path: abs_path@,
                rel_path: rel_path@,
                file_type,
                bytes: None,
                mod_name: mod_name@,
                target_db,
                priority,
            }),
    {
        FileEntry { abs_path, rel_path, file_type, bytes: None, mod_name, target_db, priority }
    }

    /// A file in memory, known by its relative path.
    pub fn from_bytes(
        rel_path: String,
        file_type: FileType,
        mod_name: String,
        target_db: TargetDb,
        priority: u8,
        bytes: Vec<u8>,
    ) -> (r: Self)
        ensures
            r.deep_view() == (FileModel {
                abs_path: rel_path@,
                rel_path: rel_path@,
                file_type,
                bytes: Some(bytes@),
                mod_name: mod_name@,
                target_db,
                priority,
            }),
    {
        FileEntry {
            abs_path: rel_path.clone(),
            rel_path,
            file_type,
            bytes: Some(bytes),
            mod_name,
            target_db,
            priority,
        }
    }

    /// The extension in lower case: that of the relative path, or else that of
    /// the absolute path.
    pub fn extension(&self) -> (r: Option<String>)
        ensures
            r.deep_view() == (match path_extension(self.rel_path@) {
                Some(e) => Some(e),
                None => path_extension(self.abs_path@),
            }),
    {
        match extension_of(self.rel_path.as_str()) {
            Some(e) => Some(e),
            None => extension_of(self.abs_path.as_str()),
        }
    }

    /// The size of the contents: of those in memory, or else the size on disk
    /// where there is one.
    pub fn file_size(&self, on_disk: Option<u64>) -> (r: u64)
        ensures
            r == (match self.bytes {
                Some(b) => b@.len() as u64,
                None => match on_disk {
                    Some(n) => n,
                    None => 0,
                },
            }),
    {
        match &self.bytes {
            Some(b) => b.len() as u64,
            None => match on_disk {
                Some(n) => n,
                None => 0,
            },
        }
    }

    /// The contents, where they are in memory.
    pub fn in_memory_bytes(&self) -> (r: Option<&Vec<u8>>)
        ensures
            match r {
                Some(b) => self.deep_view().bytes == Some(b@),
                None => self.deep_view().bytes is None,
            },
    {
        match &self.bytes {
            Some(b) => Some(b),
            None => None,
        }
    }
}

/// The files by priority, the highest first.
impl Ranked for FileEntry {
    open spec fn ranks_before(a: FileModel, b: FileModel) -> bool {
        a.priority > b.priority
    }

    fn goes_before(&self, other: &Self) -> (r: bool) {
        self.priority > other.priority
    }
}

/// Files in the order in which they are inserted: by priority, the highest
/// first, and otherwise as they were collected.
pub open spec fn insert_order(files: Seq<FileModel>) -> Seq<FileModel> {
    order::stable_sort(files, order::rank::<FileEntry>())
}

/// The files in the order in which they are inserted.
pub fn by_priority(files: Vec<FileEntry>) -> (r: Vec<FileEntry>)
    ensures
        r.deep_view() == insert_order(files.deep_view()),
{
    sort_ranked(files)
}

/// A file of a higher priority is inserted before one of a lower priority, and
/// no file is lost or added.
pub proof fn law_priority_first(files: Seq<FileModel>)
    ensures
        forall|i: int, j: int|
            0 <= i < j < insert_order(files).len() ==> (#[trigger] insert_order(files)[i]).priority
                >= (#[trigger] insert_order(files)[j]).priority,
        insert_order(files).to_multiset() == files.to_multiset(),
{
    order::law_sort_orders(files, order::rank::<FileEntry>());
    let out = insert_order(files);
    assert forall|i: int, j: int| 0 <= i < j < out.len() implies (#[trigger] out[i]).priority >= (
    #[trigger] out[j]).priority by {
        assert(!order::rank::<FileEntry>()(out[j], out[i]));
    }
}

// ---------------------------------------------------------------------------
// Classification
// ---------------------------------------------------------------------------

/// Whether a path leads to an effect of the runtime that was converted to LSX.
pub open spec fn converted_effect(path: Seq<char>) -> bool {
    match file_name(path) {
        Some(name) => ".lsfx.lsx"@.is_suffix_of(text::ascii_lowered(name)),
        None => false,
    }
}

/// The path of the runtime effect that a converted one was made from.
pub open spec fn runtime_sibling(path: Seq<char>) -> Option<Seq<char>> {
    if converted_effect(path) {
        Some(path_core(path).take(path_core(path).len() - 4))
    } else {
        None
    }
}

/// The kind of a file. A converted effect does not count where the runtime
/// effect that it was made from is there too.
pub open spec fn file_kind(path: Seq<char>, sibling_exists: bool) -> Option<FileType> {
    if converted_effect(path) && sibling_exists {
        None
    } else {
        match path_extension(path) {
            Some(e) => if e == "lsx"@ || e == "lsf"@ || e == "lsfx"@ {
                Some(FileType::Lsx)
            } else if e == "lsefx"@ {
                Some(FileType::Effect)
            } else if e == "txt"@ {
                Some(FileType::Stats)
            } else if e == "loca"@ || e == "xml"@ {
                Some(FileType::Loca)
            } else if e == "xcd"@ || e == "xmd"@ {
                Some(FileType::AllSpark)
            } else {
                None
            },
            None => None,
        }
    }
}

fn is_converted_effect(path: &str) -> (r: bool)
    ensures
        r == converted_effect(path@),
{
    match file_name_of(path) {
        Some(name) => {
            let lower = to_ascii_lower(name.as_str());
            ends_with(lower.as_str(), ".lsfx.lsx")
        },
        None => false,
    }
}

/// The path of the runtime effect that a converted one was made from: whether
/// a file is there decides if the converted one is read.
pub fn has_runtime_lsfx_sibling(path: &str) -> (r: Option<String>)
    ensures
        r.deep_view() == runtime_sibling(path@),
{
    if is_converted_effect(path) {
        let v = chars_of(path);
        let n: usize = core_len(&v);
        proof {
            reveal_strlit(".lsfx.lsx");
            lemma_after_last(path_core(path@), '/');
        }
        assert(v@.subrange(0, n - 4) =~= path_core(path@).take(n - 4));
        Some(text_of(&v, 0, n - 4))
    } else {
        None
    }
}

/// The kind of the file that a path leads to. `sibling_exists` tells whether
/// there is a file at `has_runtime_lsfx_sibling`.
pub fn reference_db_file_type_for_path(path: &str, sibling_exists: bool) -> (r: Option<FileType>)
    ensures
        r == file_kind(path@, sibling_exists),
{
    if sibling_exists && is_converted_effect(path) {
        return None;
    }
    match extension_of(path) {
        Some(ext) => {
            let e = ext.as_str();
            if text_eq(e, "lsx") || text_eq(e, "lsf") || text_eq(e, "lsfx") {
                Some(FileType::Lsx)
            } else if text_eq(e, "lsefx") {
                Some(FileType::Effect)
            } else if text_eq(e, "txt") {
                Some(FileType::Stats)
            } else if text_eq(e, "loca") || text_eq(e, "xml") {
                Some(FileType::Loca)
            } else if text_eq(e, "xcd") || text_eq(e, "xmd") {
                Some(FileType::AllSpark)
            } else {
                None
            }
        },
        None => None,
    }
}

/// The regions of timeline data, which are not read.
pub open spec fn skip_regions() -> Seq<Seq<char>> {
    seq![
        "TimelineContent"@,
        "TLScene"@,
        "TimelineBank"@,
        "TimelineSceneBank"@,
        "TimelineVTPrefetch"@,
    ]
}

/// Whether a path names one of the regions that are not read.
pub open spec fn in_skipped_region(path: Seq<char>) -> bool {
    text::has_any(path, skip_regions())
}

/// Whether a path names one of the regions that are not read.
pub fn names_skipped_region(path: &str) -> (r: bool)
    ensures
        r == in_skipped_region(path@),
{
    let ghost list = skip_regions();
    assert(list[0] == "TimelineContent"@ && list[1] == "TLScene"@ && list[2] == "TimelineBank"@
        && list[3] == "TimelineSceneBank"@ && list[4] == "TimelineVTPrefetch"@);
    contains(path, "TimelineContent") || contains(path, "TLScene") || contains(path, "TimelineBank")
        || contains(path, "TimelineSceneBank") || contains(path, "TimelineVTPrefetch")
}

/// Whether a region is one of those that are not read.
pub open spec fn is_skipped_region(region: Seq<char>) -> bool {
    skip_regions().contains(region)
}

/// Whether a region is one of those that are not read.
pub fn skips_region(region: &str) -> (r: bool)
    ensures
        r == is_skipped_region(region@),
{
    let ghost list = skip_regions();
    assert(list[0] == "TimelineContent"@ && list[1] == "TLScene"@ && list[2] == "TimelineBank"@
        && list[3] == "TimelineSceneBank"@ && list[4] == "TimelineVTPrefetch"@);
    text_eq(region, "TimelineContent") || text_eq(region, "TLScene") || text_eq(
        region,
        "TimelineBank",
    ) || text_eq(region, "TimelineSceneBank") || text_eq(region, "TimelineVTPrefetch")
}

// ---------------------------------------------------------------------------
// Modules
// ---------------------------------------------------------------------------

/// The first place of a text in a list, or the length of the list.
pub open spec fn place_in(list: Seq<Seq<char>>, key: Seq<char>, from: int) -> int
    decreases list.len() - from,
{
    if from < 0 || from >= list.len() {
        list.len() as int
    } else if list[from] == key {
        from
    } else {
        place_in(list, key, from + 1)
    }
}

/// The module of a path in the editor's tree.
pub open spec fn editor_module(rel_path: Seq<char>) -> Seq<char> {
    let parts = text::pieces(rel_path, '/');
    if parts.len() >= 3 && parts[0] == "Editor"@ && parts[1] == "Mods"@ {
        parts[2]
    } else {
        "Unknown"@
    }
}

/// The module of a path: the part behind `Public`, or else the first part.
pub open spec fn module_of(rel_path: Seq<char>) -> Seq<char> {
    let parts = text::pieces(rel_path, '/');
    let at = place_in(parts, "Public"@, 0);
    if at + 1 < parts.len() {
        parts[at + 1]
    } else {
        parts[0]
    }
}

/// A text has at least one piece.
pub proof fn lemma_some_piece(s: Seq<char>, sep: char)
    ensures
        text::pieces(s, sep).len() >= 1,
{
}

/// The module of a path in the editor's tree.
pub fn extract_editor_mod_name(rel_path: &str) -> (r: String)
    ensures
        r@ == editor_module(rel_path@),
{
    let parts = split(rel_path, '/');
    if parts.len() >= 3 && text_eq(parts[0].as_str(), "Editor") && text_eq(
        parts[1].as_str(),
        "Mods",
    ) {
        parts[2].clone()
    } else {
        owned("Unknown")
    }
}

/// The module of a path.
#[verifier::loop_isolation(false)]
pub fn extract_mod_name(rel_path: &str) -> (r: String)
    ensures
        r@ == module_of(rel_path@),
{
    let parts = split(rel_path, '/');
    let ghost list = parts.deep_view();
    proof {
        lemma_some_piece(rel_path@, '/');
    }
    let mut i: usize = 0;
    while i < parts.len() && !text_eq(parts[i].as_str(), "Public")
        invariant
            i <= parts@.len(),
            place_in(list, "Public"@, 0) == place_in(list, "Public"@, i as int),
        decreases parts@.len() - i,
    {
        assert(list[i as int] == parts@[i as int]@);
        i += 1;
    }
    if i < parts.len() && i + 1 < parts.len() {
        assert(list[i as int] == parts@[i as int]@);
        return parts[i + 1].clone();
    }
    parts[0].clone()
}

/// A text as a name in SQL: every character that is no ASCII letter, digit or
/// underscore becomes an underscore.
pub open spec fn sanitized(s: Seq<char>) -> Seq<char> {
    s.map_values(
        |c: char|
            if text::is_word(c) {
                c
            } else {
                '_'
            },
    )
}

/// A text as a name in SQL.
#[verifier::loop_isolation(false)]
pub fn sanitize_id(s: &str) -> (r: String)
    ensures
        r@ == sanitized(s@),
{
    let v = chars_of(s);
    let mut r = String::new();
    let mut i: usize = 0;
    while i < v.len()
        invariant
            i <= v@.len(),
            r@ == sanitized(s@.take(i as int)),
        decreases v@.len() - i,
    {
        let c = v[i];
        r.push(if word_char(c) { c } else { '_' });
        i += 1;
        assert(s@.take(i as int) =~= s@.take(i - 1).push(s@[i - 1]));
        assert(r@ =~= sanitized(s@.take(i as int)));
    }
    assert(s@.take(i as int) =~= s@);
    r
}

/// A sanitized name consists of ASCII letters, digits and underscores, and
/// sanitizing it again changes nothing.
pub proof fn law_sanitized(s: Seq<char>)
    ensures
        sanitized(s).len() == s.len(),
        forall|i: int| 0 <= i < s.len() ==> text::is_word(#[trigger] sanitized(s)[i]),
        sanitized(sanitized(s)) == sanitized(s),
{
    assert(sanitized(sanitized(s)) =~= sanitized(s));
}

/// The priority of a module. The vanilla chain goes from `Shared` over
/// `SharedDev`, `Gustav` and `GustavDev` to `GustavX`, the honour chain from
/// `Honour` to `HonourX`.
pub open spec fn priority_of(m: Seq<char>) -> u8 {
    if m == "GustavX"@ {
        50
    } else if m == "GustavDev"@ {
        40
    } else if m == "Gustav"@ {
        30
    } else if m == "SharedDev"@ || m == "HonourX"@ {
        20
    } else if m == "Shared"@ || m == "Honour"@ {
        10
    } else if m == "Engine"@ || m == "Game"@ || m == "PhotoMode"@ || m == "English"@ {
        5
    } else {
        1
    }
}

/// The priority of a module.
pub fn module_priority(mod_name: &str) -> (r: u8)
    ensures
        r == priority_of(mod_name@),
{
    if text_eq(mod_name, "GustavX") {
        50
    } else if text_eq(mod_name, "GustavDev") {
        40
    } else if text_eq(mod_name, "Gustav") {
        30
    } else if text_eq(mod_name, "SharedDev") || text_eq(mod_name, "HonourX") {
        20
    } else if text_eq(mod_name, "Shared") || text_eq(mod_name, "Honour") {
        10
    } else if text_eq(mod_name, "Engine") || text_eq(mod_name, "Game") || text_eq(
        mod_name,
        "PhotoMode",
    ) || text_eq(mod_name, "English") {
        5
    } else {
        1
    }
}

/// The database of a module.
pub open spec fn target_of(m: Seq<char>) -> TargetDb {
    if m == "Honour"@ || m == "HonourX"@ {
        TargetDb::Honor
    } else {
        TargetDb::Base
    }
}

/// The database of a module.
pub fn target_db_for_module(mod_name: &str) -> (r: TargetDb)
    ensures
        r == target_of(mod_name@),
{
    if text_eq(mod_name, "Honour") || text_eq(mod_name, "HonourX") {
        TargetDb::Honor
    } else {
        TargetDb::Base
    }
}

} // verus!
