//! What holds of the files that are collected, and of their paths.

use vstd::prelude::*;
use crate::collect;
use crate::collect::{FoundModel, ScanRoot};
use crate::files;
use crate::files::{FileModel, FileType, TargetDb};
use crate::list_laws;
use crate::order;
use crate::text;

verus! {

// ---------------------------------------------------------------------------
// Paths
// ---------------------------------------------------------------------------

/// Whether a text can be the name of a file.
pub open spec fn is_name(name: Seq<char>) -> bool {
    name.len() > 0 && name != "."@ && name != ".."@ && list_laws::lacks(name, '/')
}

/// Whether a path leads to a file of this name, right there or in a directory.
pub open spec fn leads_to(path: Seq<char>, name: Seq<char>) -> bool {
    path == name || exists|dir: Seq<char>| #[trigger] leads_into(path, dir, name)
}

/// Whether a path leads to a file of this name in a directory.
pub open spec fn leads_into(path: Seq<char>, dir: Seq<char>, name: Seq<char>) -> bool {
    path == dir + seq!['/'] + name
}

proof fn lemma_after_last_at(s: Seq<char>, c: char, at: int)
    requires
        0 <= at <= s.len(),
        at > 0 ==> s[at - 1] == c,
        forall|k: int| at <= k < s.len() ==> s[k] != c,
    ensures
        files::after_last(s, c) == at,
{
    files::lemma_after_last(s, c);
    let n = files::after_last(s, c);
    if n < at {
        assert(s[at - 1] != c);
    } else if at < n {
        assert(s[n - 1] != c);
    }
}

proof fn lemma_core(path: Seq<char>, from: int)
    requires
        0 <= from < path.len(),
        is_name(path.skip(from)),
        from > 0 ==> path[from - 1] == '/',
    ensures
        files::path_core(path) == path,
{
    let name = path.skip(from);
    let n = path.len() as int;
    assert(name[name.len() - 1] == path[n - 1]);
    reveal_strlit(".");
    if n > 1 && path[n - 1] == '.' && path[n - 2] == '/' {
        if name.len() > 1 {
            assert(name[name.len() - 2] == path[n - 2]);
        } else {
            assert(name =~= "."@);
        }
    }
}

/// A path leads to the file that it ends with.
pub proof fn law_path_leads_to_file(path: Seq<char>, name: Seq<char>)
    requires
        is_name(name),
        leads_to(path, name),
    ensures
        files::file_name(path) == Some(name),
{
    let from = path.len() - name.len();
    if path != name {
        let dir = choose|dir: Seq<char>| #[trigger] leads_into(path, dir, name);
        assert(path[from - 1] == '/');
    }
    assert(path.skip(from) =~= name);
    lemma_core(path, from);
    assert forall|k: int| from <= k < path.len() implies path[k] != '/' by {
        assert(name[k - from] == path[k]);
    }
    lemma_after_last_at(path, '/', from);
}

/// The extension of a file is what follows the last dot of its name, in lower case, and its
/// stem is what stands before it.
pub proof fn law_name_has_stem_and_extension(path: Seq<char>, stem: Seq<char>, ext: Seq<char>)
    requires
        stem.len() > 0,
        list_laws::lacks(ext, '.'),
        is_name(stem + seq!['.'] + ext),
        leads_to(path, stem + seq!['.'] + ext),
    ensures
        files::path_extension(path) == Some(text::ascii_lowered(ext)),
        files::path_stem(path) == stem,
{
    let name = stem + seq!['.'] + ext;
    let at = stem.len() + 1;
    law_path_leads_to_file(path, name);
    assert forall|k: int| at <= k < name.len() implies name[k] != '.' by {
        assert(ext[k - at] == name[k]);
    }
    lemma_after_last_at(name, '.', at as int);
    assert(name.skip(at as int) =~= ext);
    assert(name.take(at - 1) =~= stem);
}

/// A file without a dot in its name, but for its first character, has no extension.
pub proof fn law_name_without_dot(path: Seq<char>, name: Seq<char>)
    requires
        is_name(name),
        leads_to(path, name),
        forall|k: int| 1 <= k < name.len() ==> #[trigger] name[k] != '.',
    ensures
        files::path_extension(path) is None,
        files::path_stem(path) == name,
{
    law_path_leads_to_file(path, name);
    files::lemma_after_last(name, '.');
    let n = files::after_last(name, '.');
    if n > 1 {
        assert(name[n - 1] == '.');
    }
}

/// The kind of a file is told by its extension; a converted effect counts only where the
/// effect that it was made from is missing.
pub proof fn law_extension_tells_kind(path: Seq<char>, sibling_exists: bool)
    ensures
        ({
            let kind = files::file_kind(path, sibling_exists);
            let ext = files::path_extension(path);
            let shadowed = sibling_exists && (files::file_name(path) matches Some(name)
                && ".lsfx.lsx"@.is_suffix_of(text::ascii_lowered(name)));
            &&& shadowed ==> kind is None
            &&& ext is None ==> kind is None
            &&& !shadowed && (ext == Some("lsx"@) || ext == Some("lsf"@) || ext == Some("lsfx"@))
                ==> kind == Some(FileType::Lsx)
            &&& !shadowed && ext == Some("lsefx"@) ==> kind == Some(FileType::Effect)
            &&& !shadowed && ext == Some("txt"@) ==> kind == Some(FileType::Stats)
            &&& !shadowed && (ext == Some("loca"@) || ext == Some("xml"@)) ==> kind == Some(
                FileType::Loca,
            )
            &&& !shadowed && (ext == Some("xcd"@) || ext == Some("xmd"@)) ==> kind == Some(
                FileType::AllSpark,
            )
        }),
{
    reveal_strlit("lsx");
    reveal_strlit("lsf");
    reveal_strlit("lsfx");
    reveal_strlit("lsefx");
    reveal_strlit("txt");
    reveal_strlit("loca");
    reveal_strlit("xml");
    reveal_strlit("xcd");
    reveal_strlit("xmd");
    assert("lsx"@.len() == 3 && "lsf"@.len() == 3 && "lsfx"@.len() == 4 && "lsefx"@.len() == 5
        && "txt"@.len() == 3 && "loca"@.len() == 4 && "xml"@.len() == 3 && "xcd"@.len() == 3
        && "xmd"@.len() == 3);
    assert("lsx"@[0] == 'l' && "lsf"@[0] == 'l' && "lsfx"@[1] == 's' && "txt"@[0] == 't'
        && "loca"@[1] == 'o' && "xml"@[1] == 'm' && "xcd"@[1] == 'c' && "xmd"@[1] == 'm');
    assert("xml"@[0] == 'x' && "xcd"@[0] == 'x' && "xmd"@[0] == 'x');
    assert("xml"@[2] == 'l' && "xmd"@[2] == 'd');
}

// ---------------------------------------------------------------------------
// Modules
// ---------------------------------------------------------------------------

proof fn lemma_pieces(a: Seq<char>, b: Seq<char>)
    requires
        list_laws::lacks(a, '/'),
    ensures
        text::pieces(a, '/') == seq![a],
        text::pieces(a + seq!['/'] + b, '/') == seq![a] + text::pieces(b, '/'),
{
    text::lemma_char_at_or_end(a, '/', 0);
    let s = a + seq!['/'] + b;
    text::lemma_char_at_or_end(s, '/', 0);
    let n = text::char_at_or_end(s, '/', 0);
    assert(s[a.len() as int] == '/');
    if n < a.len() {
        assert(s[n] == a[n]);
    }
    assert(s.take(n) =~= a);
    assert(s.skip(n + 1) =~= b);
}

proof fn lemma_place_shift(list: Seq<Seq<char>>, first: Seq<char>, key: Seq<char>, from: int)
    requires
        0 <= from <= list.len(),
    ensures
        files::place_in(seq![first] + list, key, from + 1) == files::place_in(list, key, from) + 1,
    decreases list.len() - from,
{
    let more = seq![first] + list;
    if from < list.len() {
        assert(more[from + 1] == list[from]);
        lemma_place_shift(list, first, key, from + 1);
    }
}

/// The module of a path is the directory right below `Public`, whatever stands above.
pub proof fn law_module_lies_below_public(above: Seq<char>, m: Seq<char>, rest: Seq<char>)
    requires
        list_laws::lacks(m, '/'),
    ensures
        files::module_of("Public"@ + seq!['/'] + m) == m,
        files::module_of("Public"@ + seq!['/'] + (m + seq!['/'] + rest)) == m,
        list_laws::lacks(above, '/') ==> files::module_of(
            above + seq!['/'] + ("Public"@ + seq!['/'] + (m + seq!['/'] + rest)),
        ) == (if above == "Public"@ {
            "Public"@
        } else {
            m
        }),
{
    reveal_strlit("Public");
    let p = "Public"@;
    assert(list_laws::lacks(p, '/'));
    lemma_pieces(m, rest);
    let tail = m + seq!['/'] + rest;
    lemma_pieces(p, m);
    lemma_pieces(p, tail);
    let short = seq![p] + seq![m];
    assert(short[0] == p && short[1] == m);
    let more = text::pieces(tail, '/');
    assert(more[0] == m);
    let whole = seq![p] + more;
    assert(whole[0] == p && whole[1] == m);
    if list_laws::lacks(above, '/') {
        lemma_pieces(above, p + seq!['/'] + tail);
        let all = seq![above] + whole;
        assert(all[0] == above && all[1] == p && all[2] == m);
        lemma_place_shift(whole, above, p, 0);
    }
}

/// A path in the editor's tree names its module behind `Editor` and `Mods`.
pub proof fn law_editor_module_lies_below_mods(m: Seq<char>, rest: Seq<char>)
    requires
        list_laws::lacks(m, '/'),
    ensures
        files::editor_module("Editor"@ + seq!['/'] + ("Mods"@ + seq!['/'] + m)) == m,
        files::editor_module(
            "Editor"@ + seq!['/'] + ("Mods"@ + seq!['/'] + (m + seq!['/'] + rest)),
        ) == m,
{
    reveal_strlit("Editor");
    reveal_strlit("Mods");
    let e = "Editor"@;
    let d = "Mods"@;
    assert(list_laws::lacks(e, '/') && list_laws::lacks(d, '/'));
    let tail = m + seq!['/'] + rest;
    lemma_pieces(m, rest);
    lemma_pieces(d, m);
    lemma_pieces(d, tail);
    lemma_pieces(e, d + seq!['/'] + m);
    lemma_pieces(e, d + seq!['/'] + tail);
    let short = seq![e] + (seq![d] + seq![m]);
    assert(short[0] == e && short[1] == d && short[2] == m);
    let more = text::pieces(tail, '/');
    let whole = seq![e] + (seq![d] + more);
    assert(more[0] == m);
    assert(whole[0] == e && whole[1] == d && whole[2] == m);
}

/// Later modules of a chain take precedence over earlier ones, and those of the chains over
/// all others; the honour modules alone have a database of their own.
pub proof fn law_modules_take_precedence(m: Seq<char>)
    ensures
        files::priority_of("GustavX"@) > files::priority_of("GustavDev"@) > files::priority_of(
            "Gustav"@,
        ) > files::priority_of("SharedDev"@) > files::priority_of("Shared"@),
        files::priority_of("HonourX"@) > files::priority_of("Honour"@),
        m != "GustavX"@ ==> files::priority_of(m) < files::priority_of("GustavX"@),
        m != "GustavX"@ && m != "GustavDev"@ && m != "Gustav"@ && m != "SharedDev"@ && m
            != "Shared"@ && m != "HonourX"@ && m != "Honour"@ ==> files::priority_of(m)
            < files::priority_of("Shared"@) && files::priority_of(m) < files::priority_of(
            "Honour"@,
        ),
        files::target_of(m) == TargetDb::Honor <==> m == "Honour"@ || m == "HonourX"@,
{
    reveal_strlit("GustavX");
    reveal_strlit("GustavDev");
    reveal_strlit("Gustav");
    reveal_strlit("SharedDev");
    reveal_strlit("Shared");
    reveal_strlit("HonourX");
    reveal_strlit("Honour");
    assert("GustavX"@.len() == 7 && "GustavDev"@.len() == 9 && "Gustav"@.len() == 6
        && "SharedDev"@.len() == 9 && "Shared"@.len() == 6 && "HonourX"@.len() == 7
        && "Honour"@.len() == 6);
    assert("GustavX"@[0] == 'G' && "GustavDev"@[0] == 'G' && "Gustav"@[0] == 'G'
        && "SharedDev"@[0] == 'S' && "Shared"@[0] == 'S' && "HonourX"@[0] == 'H' && "Honour"@[0]
        == 'H');
}

// ---------------------------------------------------------------------------
// Collected files
// ---------------------------------------------------------------------------

/// Files are picked one by one, in the order in which they were found.
pub proof fn law_files_are_picked_in_order(
    a: Seq<FoundModel>,
    b: Seq<FoundModel>,
    pick: spec_fn(FoundModel) -> Option<FileModel>,
)
    ensures
        collect::picked(a + b, pick) == collect::picked(a, pick) + collect::picked(b, pick),
        b.len() == 1 ==> collect::picked(b, pick) == (match pick(b[0]) {
            Some(f) => seq![f],
            None => Seq::empty(),
        }),
    decreases b.len(),
{
    if b.len() == 0 {
        assert(a + b =~= a);
        assert(collect::picked(a, pick) + collect::picked(b, pick) =~= collect::picked(a, pick));
    } else {
        assert((a + b).drop_last() =~= a + b.drop_last());
        assert((a + b).last() == b.last());
        law_files_are_picked_in_order(a, b.drop_last(), pick);
        assert(collect::picked(a + b, pick) =~= collect::picked(a, pick) + collect::picked(
            b,
            pick,
        ));
        reveal_with_fuel(collect::picked, 2);
    }
}

/// Whether a file is one that was found, of a kind and a module, with what the module tells
/// of it.
pub open spec fn is_found(f: FoundModel, kind: FileType, m: Seq<char>, r: FileModel) -> bool {
    &&& r.abs_path == f.path
    &&& r.rel_path == text::swapped(f.rel_path, '\\', '/')
    &&& r.file_type == kind
    &&& r.bytes is None
    &&& r.mod_name == m
}

/// A file of the unpacked data is taken where its kind is known; one of an extracted package
/// only where it holds no timeline data. Both belong to the module that their path names,
/// which tells their database and their priority.
pub proof fn law_data_files_are_taken(f: FoundModel)
    ensures
        ({
            let rel = text::swapped(f.rel_path, '\\', '/');
            let m = files::module_of(rel);
            let kind = files::file_kind(f.path, f.sibling_exists);
            let timeline = text::has_text(rel, "/Timeline/"@) || text::has_text(
                rel,
                "/TimelineTemplates/"@,
            ) || files::in_skipped_region(rel);
            &&& kind is None ==> collect::unpacked_file(f) is None
            &&& kind matches Some(k) ==> (collect::unpacked_file(f) matches Some(r) && is_found(
                f,
                k,
                m,
                r,
            ) && r.target_db == files::target_of(m) && r.priority == files::priority_of(m))
            &&& timeline ==> collect::extracted_file(f) is None
            &&& !timeline ==> collect::extracted_file(f) == collect::unpacked_file(f)
        }),
{
}

/// A file of a mod is taken where its kind is known and it names no region that is skipped;
/// it belongs to the mod, and goes before all but the last module of the game.
pub proof fn law_mod_files_are_taken(f: FoundModel, mod_name: Seq<char>)
    ensures
        ({
            let rel = text::swapped(f.rel_path, '\\', '/');
            let kind = files::file_kind(f.path, f.sibling_exists);
            let r = collect::mod_file(f, mod_name);
            &&& r is Some <==> kind is Some && !files::in_skipped_region(rel)
            &&& r matches Some(file) ==> is_found(f, kind->0, mod_name, file) && file.target_db
                == TargetDb::Base && file.priority == files::priority_of("GustavX"@)
        }),
{
}

/// Of the editor's files, the definitions and the sources of effects are taken, and no
/// others.
pub proof fn law_editor_files_are_taken(f: FoundModel)
    ensures
        ({
            let rel = text::swapped(f.rel_path, '\\', '/');
            let kind = files::file_kind(f.path, f.sibling_exists);
            let m = files::editor_module(rel);
            &&& collect::definition_file(f) is Some <==> kind == Some(FileType::AllSpark)
            &&& collect::definition_file(f) matches Some(r) ==> is_found(
                f,
                FileType::AllSpark,
                "AllSpark"@,
                r,
            ) && r.target_db == TargetDb::Base && r.priority == 10
            &&& collect::editor_file(f) is Some <==> kind == Some(FileType::Effect)
            &&& collect::editor_file(f) matches Some(r) ==> is_found(f, FileType::Effect, m, r)
                && r.target_db == files::target_of(m) && r.priority == files::priority_of(m)
        }),
{
}

/// An entry of a data package is taken where it is not deleted, passes, holds no timeline
/// data and is of a known kind. It is filed under the name of the package.
pub proof fn law_package_entries_are_taken(
    pak_name: Seq<char>,
    path: Seq<char>,
    deleted: bool,
    passes: bool,
    sibling_exists: bool,
)
    ensures
        ({
            let rel = pak_name + seq!['/'] + text::swapped(path, '\\', '/');
            let m = files::module_of(rel);
            let kind = files::file_kind(path, sibling_exists);
            let r = collect::data_entry(pak_name, path, deleted, passes, sibling_exists);
            &&& r is Some <==> !deleted && passes && kind is Some && !files::in_skipped_region(rel)
                && !text::has_text(rel, "/Timeline/"@) && !text::has_text(
                rel,
                "/TimelineTemplates/"@,
            )
            &&& r matches Some(f) ==> f.rel_path == rel && f.abs_path == rel && f.file_type
                == kind->0 && f.mod_name == m && f.target_db == files::target_of(m) && f.priority
                == files::priority_of(m) && f.bytes is None
        }),
{
    reveal_strlit("/");
    assert("/"@ =~= seq!['/']);
}

/// An entry of a mod's package is taken like a file of the mod, unless it is deleted.
pub proof fn law_mod_entries_are_taken(
    mod_name: Seq<char>,
    path: Seq<char>,
    deleted: bool,
    sibling_exists: bool,
)
    ensures
        ({
            let rel = text::swapped(path, '\\', '/');
            let kind = files::file_kind(path, sibling_exists);
            let r = collect::mod_entry(mod_name, path, deleted, sibling_exists);
            &&& r is Some <==> !deleted && kind is Some && !files::in_skipped_region(rel)
            &&& r matches Some(f) ==> f.rel_path == rel && f.abs_path == rel && f.file_type
                == kind->0 && f.mod_name == mod_name && f.target_db == TargetDb::Base && f.priority
                == files::priority_of("GustavX"@)
        }),
{
}

/// An entry of a localization package is taken where it is a binary localization file that
/// is not deleted. It is filed below `Localization`, once.
pub proof fn law_loca_entries_are_taken(path: Seq<char>, deleted: bool)
    ensures
        ({
            let r = collect::loca_entry(path, deleted);
            let p = text::swapped(path, '\\', '/');
            &&& r is Some <==> !deleted && files::path_extension(path) == Some("loca"@)
            &&& r matches Some(f) ==> {
                &&& f.file_type == FileType::Loca
                &&& f.mod_name == "English"@
                &&& "Localization/"@.is_prefix_of(p) ==> f.rel_path == p
                &&& !"Localization/"@.is_prefix_of(p) ==> f.rel_path == "Localization/"@ + p
            }
        }),
{
    let p = text::swapped(path, '\\', '/');
    let w = "Localization/"@;
    if w.is_prefix_of(p) {
        assert(w + p.skip(w.len() as int) =~= p) by {
            assert(p.subrange(0, w.len() as int) =~= w);
        }
    }
}

/// An entry of a package passes where it lies below one of the directories, or below one of
/// dice, and has one of the extensions.
pub proof fn law_filter_passes_entries(
    roots: Seq<Seq<char>>,
    exts: Seq<Seq<char>>,
    i: int,
    rest: Seq<char>,
    set: Seq<char>,
)
    requires
        0 <= i < roots.len(),
    ensures
        ({
            let path = roots[i] + seq!['/'] + rest;
            collect::passes(roots, exts, path) <==> (files::path_extension(path) matches Some(e)
                && exts.contains(e))
        }),
        ({
            let path = "Public/DiceSet"@ + set + seq!['/'] + rest;
            collect::passes(roots, exts, path) <==> (files::path_extension(path) matches Some(e)
                && exts.contains(e))
        }),
{
    reveal_strlit("/");
    let path = roots[i] + seq!['/'] + rest;
    let head = roots[i] + "/"@;
    assert("/"@ =~= seq!['/']);
    assert(head =~= path.subrange(0, head.len() as int));
    assert(collect::below(roots[i], path));
    let dice = "Public/DiceSet"@ + set + seq!['/'] + rest;
    let w = "Public/DiceSet"@;
    assert(w =~= dice.subrange(0, w.len() as int));
    let tail = dice.skip(w.len() as int);
    assert(tail =~= set + seq!['/'] + rest);
    assert(tail[set.len() as int] == '/');
}

/// The entries that are read from a package are those that are wanted, each with its place,
/// in order.
pub proof fn law_wanted_entries_are_chosen(wanted: Seq<Option<FileModel>>, i: int)
    requires
        wanted.len() <= usize::MAX,
        0 <= i < wanted.len(),
        wanted[i] is Some,
    ensures
        collect::chosen(wanted).contains((i as usize, wanted[i]->0)),
    decreases wanted.len(),
{
    let d = wanted.drop_last();
    let before = collect::chosen(d);
    let r = collect::chosen(wanted);
    let x = (i as usize, wanted[i]->0);
    if i < d.len() {
        assert(d[i] == wanted[i]);
        law_wanted_entries_are_chosen(d, i);
        let at = choose|at: int| 0 <= at < before.len() && before[at] == x;
        assert(r[at] == x);
    } else {
        assert(r[r.len() - 1] == x);
    }
}

proof fn lemma_kept_roots(s: Seq<Seq<Seq<char>>>, i: int)
    requires
        0 <= i < s.len(),
    ensures
        collect::without_repeats(s).contains(s[i]),
    decreases s.len(),
{
    let r = collect::without_repeats(s);
    if s.len() == 1 {
        assert(r[0] == s[i]);
    } else {
        let d = s.drop_last();
        let before = collect::without_repeats(d);
        if i < d.len() {
            assert(d[i] == s[i]);
            lemma_kept_roots(d, i);
            let at = choose|at: int| 0 <= at < before.len() && before[at] == s[i];
            assert(r[at] == s[i]);
        } else if s[s.len() - 2] == s.last() {
            assert(d[d.len() - 1] == s.last());
            lemma_kept_roots(d, d.len() - 1);
        } else {
            assert(r[r.len() - 1] == s[i]);
        }
    }
}

proof fn lemma_parts_apart(a: Seq<Seq<char>>, b: Seq<Seq<char>>)
    ensures
        collect::parts_lt(a, b) ==> !collect::parts_lt(b, a),
    decreases a.len(),
{
    if a.len() > 0 && b.len() > 0 {
        if a[0] == b[0] {
            lemma_parts_apart(a.drop_first(), b.drop_first());
        } else if order::text_lt(a[0], b[0]) && order::text_lt(b[0], a[0]) {
            order::lemma_text_lt_transitive(a[0], b[0], a[0]);
            order::lemma_text_lt_irreflexive(a[0]);
        }
    }
}

proof fn lemma_parts_between(a: Seq<Seq<char>>, b: Seq<Seq<char>>, c: Seq<Seq<char>>)
    ensures
        collect::parts_lt(a, c) ==> collect::parts_lt(a, b) || collect::parts_lt(b, c),
    decreases a.len(),
{
    if collect::parts_lt(a, c) && a.len() > 0 && b.len() > 0 {
        if a[0] == c[0] && a[0] == b[0] {
            lemma_parts_between(a.drop_first(), b.drop_first(), c.drop_first());
        } else {
            order::lemma_text_lt_total(a[0], b[0]);
            order::lemma_text_lt_total(b[0], c[0]);
            if order::text_lt(b[0], a[0]) && order::text_lt(a[0], c[0]) {
                order::lemma_text_lt_transitive(b[0], a[0], c[0]);
                order::lemma_text_lt_irreflexive(b[0]);
            }
        }
    }
}

proof fn lemma_roots_order()
    ensures
        order::orders(order::rank::<ScanRoot>()),
{
    let before = order::rank::<ScanRoot>();
    assert forall|a: Seq<Seq<char>>, b: Seq<Seq<char>>| #[trigger] before(a, b) implies !before(
        b,
        a,
    ) by {
        lemma_parts_apart(a, b);
    }
    assert forall|a: Seq<Seq<char>>, b: Seq<Seq<char>>, c: Seq<Seq<char>>|
        #![trigger before(a, c), before(a, b)]
        #![trigger before(a, c), before(b, c)]
        before(a, c) implies before(a, b) || before(b, c) by {
        lemma_parts_between(a, b, c);
    }
}

/// The directories to be searched hold those that always are, and the mods of each that is
/// given.
pub proof fn law_roots_hold_all(dirs: Seq<Seq<char>>, i: int)
    ensures
        0 <= i < dirs.len() ==> collect::scan_roots(dirs).contains(seq![dirs[i], "Mods"@]),
        0 <= i < collect::target_dirs().len() ==> collect::scan_roots(dirs).contains(
            collect::target_dirs()[i],
        ),
{
    let given = Seq::new(dirs.len(), |i: int| seq![dirs[i], "Mods"@]);
    let all = collect::target_dirs() + given;
    let before = order::rank::<ScanRoot>();
    let sorted = order::stable_sort(all, before);
    lemma_roots_order();
    order::lemma_sorted_holds(all, before);
    if 0 <= i < dirs.len() {
        let x = seq![dirs[i], "Mods"@];
        assert(all[collect::target_dirs().len() + i] == x);
        assert(all.contains(x));
        let at = choose|at: int| 0 <= at < sorted.len() && sorted[at] == x;
        lemma_kept_roots(sorted, at);
    }
    if 0 <= i < collect::target_dirs().len() {
        let x = collect::target_dirs()[i];
        assert(all[i] == x);
        assert(all.contains(x));
        let at = choose|at: int| 0 <= at < sorted.len() && sorted[at] == x;
        lemma_kept_roots(sorted, at);
    }
}

} // verus!
