//! Filling the databases from the game's packages: which packages are read, what
//! becomes of each, and which files go where.

use vstd::prelude::*;
use vstd::string::*;
use crate::discovery::glued;
use crate::files;
use crate::files::{by_priority, BuildOptions, FileEntry, FileModel, FileType, TargetDb};
use crate::order;
use crate::order::sort_ranked;
use crate::partition;
use crate::partition::collect_source_names;
use crate::text;
use crate::text::{chars_of, contains, decimal_text, ends_with, owned, starts_with, text_eq, text_of};

verus! {

// ---------------------------------------------------------------------------
// Packages
// ---------------------------------------------------------------------------

/// The kinds of packages that hold game data.
#[derive(Debug, Clone, Copy, PartialEq, Eq, Structural)]
pub enum PakKind {
    Data,
    DiceSet,
    Hotfix,
}

/// A package to be read.
#[derive(Debug)]
pub struct PakJob {
    pub kind: PakKind,
    /// What the package is called in messages.
    pub label: String,
    /// The name of its file without the extension.
    pub name: String,
}

/// What a package to be read says.
pub struct JobModel {
    pub kind: PakKind,
    pub label: Seq<char>,
    pub name: Seq<char>,
}

impl DeepView for PakJob {
    type V = JobModel;

    open spec fn deep_view(&self) -> JobModel {
        JobModel { kind: self.kind, label: self.label@, name: self.name@ }
    }
}

/// Whether a file name is that of a package.
pub open spec fn pak_name(name: Seq<char>) -> bool {
    ".pak"@.is_suffix_of(name) && name.len() > 4
}

/// Whether a file name is that of a package.
pub fn is_pak_name(name: &str) -> (r: bool)
    ensures
        r == pak_name(name@),
{
    let n: usize = name.unicode_len();
    ends_with(name, ".pak") && n > 4
}

/// The names of packages among file names.
pub open spec fn paks_among(names: Seq<Seq<char>>) -> Seq<Seq<char>>
    decreases names.len(),
{
    if names.len() == 0 {
        Seq::empty()
    } else {
        let before = paks_among(names.drop_last());
        if pak_name(names.last()) {
            before.push(names.last())
        } else {
            before
        }
    }
}

/// The names of packages among file names, in order.
#[verifier::loop_isolation(false)]
pub fn list_pak_files(names: &Vec<String>) -> (r: Vec<String>)
    ensures
        r.deep_view() == order::stable_sort(
            paks_among(names.deep_view()),
            order::rank::<String>(),
        ),
{
    let ghost all = names.deep_view();
    let mut r: Vec<String> = Vec::new();
    assert(r.deep_view() =~= paks_among(all.take(0)));
    let mut i: usize = 0;
    while i < names.len()
        invariant
            i <= names@.len(),
            all == names.deep_view(),
            r.deep_view() == paks_among(all.take(i as int)),
        decreases names@.len() - i,
    {
        assert(all.take(i + 1).drop_last() =~= all.take(i as int));
        assert(all[i as int] == names@[i as int]@);
        let ghost before = r.deep_view();
        if is_pak_name(names[i].as_str()) {
            r.push(names[i].clone());
            assert(r.deep_view() =~= before.push(all[i as int]));
        }
        i += 1;
    }
    assert(all.take(i as int) =~= all);
    sort_ranked(r)
}

/// The packages of the game itself.
pub open spec fn data_paks() -> Seq<Seq<char>> {
    seq![
        "Gustav"@,
        "GustavX"@,
        "Shared"@,
        "Engine"@,
        "Effects"@,
        "Game"@,
        "Materials"@,
    ]
}

/// The packages of the game itself.
pub fn data_pak_names() -> (r: Vec<&'static str>)
    ensures
        r.deep_view() == data_paks(),
{
    let r: Vec<&'static str> = vec![
        "Gustav",
        "GustavX",
        "Shared",
        "Engine",
        "Effects",
        "Game",
        "Materials",
    ];
    assert(r.deep_view() =~= data_paks());
    r
}

/// Whether a package holds dice.
pub open spec fn dice_pak(name: Seq<char>) -> bool {
    "DiceSet"@.is_prefix_of(name) && ".pak"@.is_suffix_of(name)
}

/// Whether a package is a hotfix.
pub open spec fn hotfix_pak(name: Seq<char>) -> bool {
    "Patch"@.is_prefix_of(name) && text::has_text(name, "_HotFix"@)
}

/// Whether a package is of a kind.
pub open spec fn of_kind(name: Seq<char>, kind: PakKind) -> bool {
    match kind {
        PakKind::Data => false,
        PakKind::DiceSet => dice_pak(name),
        PakKind::Hotfix => hotfix_pak(name),
    }
}

fn is_of_kind(name: &str, kind: PakKind) -> (r: bool)
    ensures
        r == of_kind(name@, kind),
{
    match kind {
        PakKind::Data => false,
        PakKind::DiceSet => starts_with(name, "DiceSet") && ends_with(name, ".pak"),
        PakKind::Hotfix => starts_with(name, "Patch") && contains(name, "_HotFix"),
    }
}

/// A name without the extensions of packages at its end.
pub open spec fn without_pak(name: Seq<char>) -> Seq<char>
    decreases name.len(),
{
    if ".pak"@.is_suffix_of(name) && ".pak"@.len() > 0 {
        without_pak(name.take(name.len() - ".pak"@.len()))
    } else {
        name
    }
}

/// The name without the extensions of packages at its end.
#[verifier::loop_isolation(false)]
pub fn trim_pak(name: &str) -> (r: String)
    ensures
        r@ == without_pak(name@),
{
    let v = chars_of(name);
    let mut n: usize = v.len();
    let mut r = owned(name);
    assert(v@.take(n as int) =~= name@);
    while ends_with(r.as_str(), ".pak")
        invariant
            n <= v@.len(),
            r@ == v@.take(n as int),
            without_pak(r@) == without_pak(name@),
        decreases n,
    {
        proof {
            reveal_strlit(".pak");
        }
        n = n - 4;
        assert(r@.take(r@.len() - 4) =~= v@.take(n as int));
        r = text_of(&v, 0, n);
        assert(v@.subrange(0, n as int) =~= v@.take(n as int));
    }
    r
}

/// The packages of a kind among files.
pub open spec fn jobs_of_kind(names: Seq<Seq<char>>, kind: PakKind) -> Seq<JobModel>
    decreases names.len(),
{
    if names.len() == 0 {
        Seq::empty()
    } else {
        let before = jobs_of_kind(names.drop_last(), kind);
        if of_kind(names.last(), kind) {
            before.push(JobModel { kind, label: names.last(), name: without_pak(names.last()) })
        } else {
            before
        }
    }
}

/// The packages to be read: those of the game itself, then dice, then hotfixes.
pub open spec fn jobs_for(names: Seq<Seq<char>>) -> Seq<JobModel> {
    Seq::new(
        data_paks().len(),
        |i: int|
            JobModel { kind: PakKind::Data, label: data_paks()[i], name: data_paks()[i] },
    ) + jobs_of_kind(names, PakKind::DiceSet) + jobs_of_kind(names, PakKind::Hotfix)
}

#[verifier::loop_isolation(false)]
fn add_jobs(jobs: &mut Vec<PakJob>, names: &Vec<String>, kind: PakKind)
    ensures
        final(jobs).deep_view() == old(jobs).deep_view() + jobs_of_kind(names.deep_view(), kind),
{
    let ghost start = jobs.deep_view();
    let ghost all = names.deep_view();
    assert(start + jobs_of_kind(all.take(0), kind) =~= start);
    let mut i: usize = 0;
    while i < names.len()
        invariant
            i <= names@.len(),
            all == names.deep_view(),
            jobs.deep_view() == start + jobs_of_kind(all.take(i as int), kind),
        decreases names@.len() - i,
    {
        assert(all.take(i + 1).drop_last() =~= all.take(i as int));
        assert(all[i as int] == names@[i as int]@);
        let ghost before = jobs.deep_view();
        if is_of_kind(names[i].as_str(), kind) {
            let job = PakJob { kind, label: names[i].clone(), name: trim_pak(names[i].as_str()) };
            jobs.push(job);
            assert(jobs.deep_view() =~= before.push(job.deep_view()));
            assert(jobs.deep_view() =~= start + jobs_of_kind(all.take(i + 1), kind));
        }
        i += 1;
    }
    assert(all.take(i as int) =~= all);
}

/// The packages to be read, of those in the data directory.
#[verifier::loop_isolation(false)]
pub fn pak_jobs(names: &Vec<String>) -> (r: Vec<PakJob>)
    ensures
        r.deep_view() == jobs_for(names.deep_view()),
{
    let data = data_pak_names();
    let ghost want = Seq::new(
        data_paks().len(),
        |i: int|
            JobModel { kind: PakKind::Data, label: data_paks()[i], name: data_paks()[i] },
    );
    let mut r: Vec<PakJob> = Vec::new();
    assert(r.deep_view() =~= want.take(0));
    let mut i: usize = 0;
    while i < data.len()
        invariant
            i <= data@.len(),
            data.deep_view() == data_paks(),
            r.deep_view() == want.take(i as int),
        decreases data@.len() - i,
    {
        assert(data.deep_view()[i as int] == data@[i as int]@);
        let ghost before = r.deep_view();
        let job = PakJob { kind: PakKind::Data, label: owned(data[i]), name: owned(data[i]) };
        r.push(job);
        assert(r.deep_view() =~= before.push(job.deep_view()));
        assert(want.take(i + 1) =~= want.take(i as int).push(want[i as int]));
        i += 1;
    }
    assert(want.take(i as int) =~= want);
    add_jobs(&mut r, names, PakKind::DiceSet);
    add_jobs(&mut r, names, PakKind::Hotfix);
    r
}

/// The number of packages that are there: those of the game itself under either
/// name, and all others.
pub open spec fn paks_there(jobs: Seq<JobModel>, present: Seq<bool>) -> nat
    decreases jobs.len(),
{
    if jobs.len() == 0 {
        0
    } else {
        let k = jobs.len() - 1;
        paks_there(jobs.drop_last(), present) + (if jobs[k].kind != PakKind::Data || (k
            < present.len() && present[k]) {
            1nat
        } else {
            0nat
        })
    }
}

/// The number of packages that are there. `present` says for each package of the
/// game itself whether its file is there under either of its names.
#[verifier::loop_isolation(false)]
pub fn count_paks_to_extract(jobs: &Vec<PakJob>, present: &Vec<bool>) -> (r: usize)
    ensures
        r == paks_there(jobs.deep_view(), present@),
{
    let ghost all = jobs.deep_view();
    let mut r: usize = 0;
    let mut i: usize = 0;
    while i < jobs.len()
        invariant
            i <= jobs@.len(),
            r <= i,
            all == jobs.deep_view(),
            r == paks_there(all.take(i as int), present@),
        decreases jobs@.len() - i,
    {
        assert(all.take(i + 1).drop_last() =~= all.take(i as int));
        assert(all[i as int] == jobs@[i as int].deep_view());
        if jobs[i].kind != PakKind::Data || (i < present.len() && present[i]) {
            r += 1;
        }
        i += 1;
    }
    assert(all.take(i as int) =~= all);
    r
}

/// The two names that the file of a package may have.
pub fn pak_file_names(name: &str) -> (r: (String, String))
    ensures
        r.0@ == name@ + ".pak"@,
        r.1@ == name@ + "_0.pak"@,
{
    (glued(name, ".pak"), glued(name, "_0.pak"))
}

/// The file that is read for a package: the one of its first name, or else of
/// its second. It fails where neither is there.
pub fn choose_pak(
    name: &str,
    path: &str,
    path_exists: bool,
    alt_path: &str,
    alt_exists: bool,
) -> (r: Result<String, String>)
    ensures
        match r {
            Ok(p) => if path_exists {
                p@ == path@
            } else {
                alt_exists && p@ == alt_path@
            },
            Err(e) => {
                &&& !path_exists && !alt_exists
                &&& e@ == name@ + ".pak not found (tried "@ + path@ + " and "@ + alt_path@ + ")"@
            },
        },
{
    if path_exists {
        Ok(owned(path))
    } else if alt_exists {
        Ok(owned(alt_path))
    } else {
        let mut e = owned(name);
        e.append(".pak not found (tried ");
        e.append(path);
        e.append(" and ");
        e.append(alt_path);
        e.append(")");
        Err(e)
    }
}

/// The directory that the packages are in, and what is noted of it: the given
/// one, or the one for data below it, if the packages are there. It fails where
/// the given one is not there.
pub fn resolve_data_dir(
    path: &str,
    exists: bool,
    sub_path: &str,
    sub_is_dir: bool,
    paks_here: bool,
    paks_below: bool,
) -> (r: Result<(String, Vec<String>), String>)
    ensures
        match r {
            Ok(d) => {
                let uses_sub = sub_is_dir && !paks_here && paks_below;
                &&& exists
                &&& d.0@ == (if uses_sub {
                    sub_path@
                } else {
                    path@
                })
                &&& d.1.deep_view() == (if uses_sub {
                    seq![
                        "Auto-resolved: using "@ + path@ + "/Data (no .pak in root)"@,
                        "Game data dir: "@ + sub_path@,
                    ]
                } else {
                    seq!["Game data dir: "@ + path@]
                })
            },
            Err(e) => !exists && e@ == "Game data directory does not exist: "@ + path@,
        },
{
    if !exists {
        return Err(glued("Game data directory does not exist: ", path));
    }
    let mut notes: Vec<String> = Vec::new();
    if sub_is_dir && !paks_here && paks_below {
        let mut note = owned("Auto-resolved: using ");
        note.append(path);
        note.append("/Data (no .pak in root)");
        let dir = glued("Game data dir: ", sub_path);
        notes.push(note);
        notes.push(dir);
        assert(notes.deep_view() =~= seq![note@, dir@]);
        Ok((owned(sub_path), notes))
    } else {
        let dir = glued("Game data dir: ", path);
        notes.push(dir);
        assert(notes.deep_view() =~= seq![dir@]);
        Ok((owned(path), notes))
    }
}

// ---------------------------------------------------------------------------
// Progress
// ---------------------------------------------------------------------------

/// The whole number nearest to a fraction, and the even one halfway between two.
pub open spec fn nearest(a: nat, b: nat) -> nat {
    let low = a / b;
    let rest = a % b;
    if 2 * rest < b || (2 * rest == b && low % 2 == 0) {
        low
    } else {
        low + 1
    }
}

/// The weight of the last of 53 binary digits of a number: one where it has no
/// more digits.
pub open spec fn last_digit(n: nat) -> nat
    decreases n,
{
    if n < 0x20_0000_0000_0000 {
        1
    } else {
        2 * last_digit(n / 2)
    }
}

/// A number rounded to 53 binary digits.
pub open spec fn rounded(n: nat) -> nat {
    nearest(n, last_digit(n)) * last_digit(n)
}

/// The power of two that takes a fraction below one to 53 digits before its point.
pub open spec fn scale(a: nat, b: nat) -> nat
    decreases 0x20_0000_0000_0000 * b - a,
{
    if a == 0 || 0x10_0000_0000_0000 * b <= a {
        1
    } else {
        2 * scale(2 * a, b)
    }
}

/// How far packages are read, in percent of all work: reading is the first half
/// of it. Without packages it is unknown.
///
/// The share is worked out in numbers of 53 binary digits: of each of the two
/// numbers, of their quotient, and of fifty times that.
pub open spec fn percent_read(current: nat, total: nat) -> int {
    let c = rounded(current);
    let t = rounded(total);
    if total == 0 {
        -1
    } else if c >= t {
        50
    } else {
        let share = nearest(c * scale(c, t), t);
        let percent = rounded(50 * share) / scale(c, t);
        if percent > 50 {
            50
        } else {
            percent as int
        }
    }
}

fn find_nearest(a: u128, b: u128) -> (r: u128)
    requires
        0 < b,
        b < 0x1000_0000_0000_0000_0000_0000_0000,
        a < 0x1000_0000_0000_0000_0000_0000_0000_0000,
    ensures
        r == nearest(a as nat, b as nat),
        r <= a / b + 1,
{
    let low: u128 = a / b;
    let rest: u128 = a % b;
    assert(low <= a) by (nonlinear_arith)
        requires
            low == a / b,
            b > 0,
    ;
    if 2 * rest < b || (2 * rest == b && low % 2 == 0) {
        low
    } else {
        low + 1
    }
}

fn find_last_digit(n: u128) -> (r: u128)
    ensures
        r == last_digit(n as nat),
        0 < r,
        n < 0x20_0000_0000_0000 ==> r == 1,
        n >= 0x20_0000_0000_0000 ==> r <= n,
{
    let mut m: u128 = n;
    let mut u: u128 = 1;
    proof {
        assert(1 * last_digit(n as nat) == last_digit(n as nat)) by (nonlinear_arith);
        assert(u * m <= n) by (nonlinear_arith)
            requires
                u == 1,
                m == n,
        ;
    }
    while m >= 0x20_0000_0000_0000
        invariant
            0 < u,
            u * last_digit(m as nat) == last_digit(n as nat),
            u * m <= n,
            n < 0x20_0000_0000_0000 ==> u == 1,
            n >= 0x20_0000_0000_0000 ==> u <= n,
        decreases m,
    {
        let ghost before = m;
        let ghost old_u = u;
        assert(2 * u <= n) by (nonlinear_arith)
            requires
                u * m <= n,
                m >= 2,
        ;
        assert(u * (2 * last_digit((m / 2) as nat)) == (2 * u) * last_digit((m / 2) as nat))
            by (nonlinear_arith);
        assert((2 * u) * (m / 2) <= n) by (nonlinear_arith)
            requires
                u * m <= n,
                2 * (m / 2) <= m,
                u > 0,
        ;
        m = m / 2;
        u = 2 * u;
    }
    assert(u * 1 == u) by (nonlinear_arith);
    u
}

fn round_number(n: u128) -> (r: u128)
    requires
        n < 0x1000_0000_0000_0000_0000_0000,
    ensures
        r == rounded(n as nat),
        r <= 2 * n,
        n > 0 ==> r > 0,
{
    let u: u128 = find_last_digit(n);
    let near: u128 = find_nearest(n, u);
    proof {
        assert((n / u) * u <= n) by (nonlinear_arith)
            requires
                u > 0,
        ;
        assert(near * u <= (n / u) * u + u) by (nonlinear_arith)
            requires
                near <= n / u + 1,
                u > 0,
        ;
        if u == 1 {
            assert(n / u == n && n % u == 0) by (nonlinear_arith)
                requires
                    u == 1,
            ;
            assert(near * u == n) by (nonlinear_arith)
                requires
                    u == 1,
                    near == n,
            ;
        } else {
            assert(n / u >= 1) by (nonlinear_arith)
                requires
                    0 < u <= n,
            ;
            assert(near * u > 0) by (nonlinear_arith)
                requires
                    near >= 1,
                    u > 0,
            ;
        }
    }
    near * u
}

fn find_scale(a: u128, b: u128) -> (r: u128)
    requires
        0 < a < b,
        b < 0x10_0000_0000_0000_0000,
    ensures
        r == scale(a as nat, b as nat),
        0 < r,
        a * r < 0x20_0000_0000_0000 * b,
        r < 0x20_0000_0000_0000 * b,
{
    let mut x: u128 = a;
    let mut unit: u128 = 1;
    proof {
        assert(1 * scale(a as nat, b as nat) == scale(a as nat, b as nat)) by (nonlinear_arith);
        assert(a * 1 == a) by (nonlinear_arith);
    }
    while x < 0x10_0000_0000_0000 * b
        invariant
            0 < a < b,
            b < 0x10_0000_0000_0000_0000,
            0 < unit <= x,
            x == a * unit,
            x < 0x20_0000_0000_0000 * b,
            unit * scale(x as nat, b as nat) == scale(a as nat, b as nat),
        decreases 0x20_0000_0000_0000 * b - x,
    {
        assert(unit * (2 * scale((2 * x) as nat, b as nat)) == (2 * unit) * scale(
            (2 * x) as nat,
            b as nat,
        )) by (nonlinear_arith);
        assert(a * (2 * unit) == 2 * (a * unit)) by (nonlinear_arith);
        x = 2 * x;
        unit = 2 * unit;
    }
    assert(unit * 1 == unit) by (nonlinear_arith);
    unit
}

/// How far packages are read, in percent of all work.
pub fn progress_pct(current: usize, total: usize) -> (r: i32)
    ensures
        r == percent_read(current as nat, total as nat),
{
    if total == 0 {
        return -1;
    }
    let c: u128 = round_number(current as u128);
    let t: u128 = round_number(total as u128);
    if c >= t {
        return 50;
    }
    if c == 0 {
        proof {
            lemma_nothing_read(t as nat);
        }
        return 0;
    }
    let factor: u128 = find_scale(c, t);
    let share: u128 = find_nearest(c * factor, t);
    assert(share <= 0x20_0000_0000_0000) by (nonlinear_arith)
        requires
            share <= (c * factor) / (t as int) + 1,
            c * factor < 0x20_0000_0000_0000 * t,
            t > 0,
    ;
    let product: u128 = round_number(50 * share);
    let percent: u128 = product / factor;
    if percent > 50 {
        50
    } else {
        percent as i32
    }
}

proof fn lemma_nothing_read(t: nat)
    requires
        t > 0,
    ensures
        scale(0, t) == 1,
        nearest(0 * scale(0, t), t) == 0,
        rounded(50 * 0) / scale(0, t) == 0,
{
    assert(0int / t as int == 0 && 0int % t as int == 0) by (nonlinear_arith)
        requires
            t > 0,
    ;
}

/// An event of a run.
#[derive(Debug)]
pub struct Progress {
    pub phase: String,
    pub detail: String,
    /// Completion in percent, or -1 where it is unknown.
    pub percent: i32,
}

/// What an event of a run says.
pub struct ProgressModel {
    pub phase: Seq<char>,
    pub detail: Seq<char>,
    pub percent: int,
}

impl DeepView for Progress {
    type V = ProgressModel;

    open spec fn deep_view(&self) -> ProgressModel {
        ProgressModel {
            phase: self.phase@,
            detail: self.detail@,
            percent: self.percent as int,
        }
    }
}

/// The event before the package in place `i` is read.
pub open spec fn pak_progress(job: JobModel, i: nat, total: nat) -> ProgressModel {
    ProgressModel {
        phase: "Extracting "@ + job.label + (if job.kind == PakKind::Data {
            ".pak"@
        } else {
            ""@
        }),
        detail: text::decimal(i + 1) + "/"@ + text::decimal(total),
        percent: percent_read(i, total),
    }
}

/// The event before the package in place `i` is read.
pub fn report_pak(job: &PakJob, i: usize, total: usize) -> (r: Progress)
    requires
        i < usize::MAX,
    ensures
        r.deep_view() == pak_progress(job.deep_view(), i as nat, total as nat),
{
    let mut phase = glued("Extracting ", job.label.as_str());
    if job.kind == PakKind::Data {
        phase.append(".pak");
    } else {
        phase.append("");
    }
    let mut detail = decimal_text(i as u64 + 1);
    let of = decimal_text(total as u64);
    detail.append("/");
    detail.append(of.as_str());
    Progress { phase, detail, percent: progress_pct(i, total) }
}

/// A text that gives a number of files.
pub open spec fn files_text(n: nat) -> Seq<char> {
    text::decimal(n) + " files"@
}

/// A text that gives a number of files.
pub fn count_files(n: usize) -> (r: String)
    ensures
        r@ == files_text(n as nat),
{
    let mut s = decimal_text(n as u64);
    s.append(" files");
    s
}

// ---------------------------------------------------------------------------
// Gathering
// ---------------------------------------------------------------------------

/// What came of reading a package.
#[derive(Debug)]
pub enum PakOutcome {
    /// Its files, and a note of the reading.
    Loaded { files: Vec<FileEntry>, note: String },
    Failed(String),
}

/// What came of reading a package.
pub enum PakOutcomeModel {
    Loaded { files: Seq<FileModel>, note: Seq<char> },
    Failed(Seq<char>),
}

impl DeepView for PakOutcome {
    type V = PakOutcomeModel;

    open spec fn deep_view(&self) -> PakOutcomeModel {
        match self {
            PakOutcome::Loaded { files, note } => PakOutcomeModel::Loaded {
                files: files.deep_view(),
                note: note@,
            },
            PakOutcome::Failed(e) => PakOutcomeModel::Failed(e@),
        }
    }
}

/// What came of reading the localization.
#[derive(Debug)]
pub enum LocaOutcome {
    /// There is no package for it.
    NoPak,
    /// The path of its package, its files, and a note of the reading.
    Loaded { path: String, files: Vec<FileEntry>, note: String },
    /// The path of its package, and what is wrong.
    Failed { path: String, error: String },
}

/// What came of reading the localization.
pub enum LocaOutcomeModel {
    NoPak,
    Loaded { path: Seq<char>, files: Seq<FileModel>, note: Seq<char> },
    Failed { path: Seq<char>, error: Seq<char> },
}

impl DeepView for LocaOutcome {
    type V = LocaOutcomeModel;

    open spec fn deep_view(&self) -> LocaOutcomeModel {
        match self {
            LocaOutcome::NoPak => LocaOutcomeModel::NoPak,
            LocaOutcome::Loaded { path, files, note } => LocaOutcomeModel::Loaded {
                path: path@,
                files: files.deep_view(),
                note: note@,
            },
            LocaOutcome::Failed { path, error } => LocaOutcomeModel::Failed {
                path: path@,
                error: error@,
            },
        }
    }
}

/// What was gathered from packages.
#[derive(Debug)]
pub struct Gathered {
    pub files: Vec<FileEntry>,
    pub paks_extracted: usize,
    pub files_extracted: usize,
    pub loca_converted: usize,
    pub diagnostics: Vec<String>,
    pub errors: Vec<String>,
}

/// What was gathered from packages.
pub struct GatheredModel {
    pub files: Seq<FileModel>,
    pub paks_extracted: nat,
    pub files_extracted: nat,
    pub loca_converted: nat,
    pub diagnostics: Seq<Seq<char>>,
    pub errors: Seq<Seq<char>>,
}

impl DeepView for Gathered {
    type V = GatheredModel;

    open spec fn deep_view(&self) -> GatheredModel {
        GatheredModel {
            files: self.files.deep_view(),
            paks_extracted: self.paks_extracted as nat,
            files_extracted: self.files_extracted as nat,
            loca_converted: self.loca_converted as nat,
            diagnostics: self.diagnostics.deep_view(),
            errors: self.errors.deep_view(),
        }
    }
}

/// Nothing was gathered.
pub open spec fn nothing_gathered() -> GatheredModel {
    GatheredModel {
        files: Seq::empty(),
        paks_extracted: 0,
        files_extracted: 0,
        loca_converted: 0,
        diagnostics: Seq::empty(),
        errors: Seq::empty(),
    }
}

/// What was gathered, with what came of a package. A package that cannot be read
/// is noted; that it is missing counts as an error, but for dice.
pub open spec fn with_pak(g: GatheredModel, job: JobModel, outcome: PakOutcomeModel) -> GatheredModel {
    match outcome {
        PakOutcomeModel::Loaded { files, note } => GatheredModel {
            files: g.files + files,
            paks_extracted: g.paks_extracted + 1,
            files_extracted: g.files_extracted + files.len(),
            diagnostics: g.diagnostics.push(note),
            ..g
        },
        PakOutcomeModel::Failed(e) => GatheredModel {
            diagnostics: g.diagnostics.push("FAIL "@ + job.label + ": "@ + e),
            errors: match job.kind {
                PakKind::Data => g.errors.push(job.label + ".pak: "@ + e),
                PakKind::DiceSet => g.errors,
                PakKind::Hotfix => g.errors.push(job.label + ": "@ + e),
            },
            ..g
        },
    }
}

/// What was gathered, with what came of packages.
pub open spec fn with_paks(
    g: GatheredModel,
    jobs: Seq<JobModel>,
    outcomes: Seq<PakOutcomeModel>,
) -> GatheredModel
    decreases outcomes.len(),
{
    if outcomes.len() == 0 {
        g
    } else {
        with_pak(
            with_paks(g, jobs, outcomes.drop_last()),
            jobs[outcomes.len() - 1],
            outcomes.last(),
        )
    }
}

/// What was gathered, with what came of the localization.
pub open spec fn with_loca(g: GatheredModel, outcome: LocaOutcomeModel) -> GatheredModel {
    match outcome {
        LocaOutcomeModel::NoPak => GatheredModel {
            diagnostics: g.diagnostics.push("No English localization pak found"@),
            ..g
        },
        LocaOutcomeModel::Loaded { path, files, note } => GatheredModel {
            files: g.files + files,
            paks_extracted: g.paks_extracted + 1,
            files_extracted: g.files_extracted + files.len(),
            loca_converted: files.len(),
            diagnostics: g.diagnostics.push("Found English loca pak: "@ + path).push(note),
            ..g
        },
        LocaOutcomeModel::Failed { path, error } => GatheredModel {
            diagnostics: g.diagnostics.push("Found English loca pak: "@ + path),
            errors: g.errors.push("Loca extraction: "@ + error),
            ..g
        },
    }
}

fn note(list: &mut Vec<String>, line: String)
    ensures
        final(list).deep_view() == old(list).deep_view().push(line@),
{
    let ghost before = list.deep_view();
    list.push(line);
    assert(list.deep_view() =~= before.push(line@));
}

fn three(a: &str, b: &str, c: &str) -> (r: String)
    ensures
        r@ == a@ + b@ + c@,
{
    let mut r = owned(a);
    r.append(b);
    r.append(c);
    r
}

fn add_files(list: &mut Vec<FileEntry>, more: Vec<FileEntry>)
    ensures
        final(list).deep_view() == old(list).deep_view() + more.deep_view(),
        final(list)@.len() == old(list)@.len() + more@.len(),
{
    let ghost before = list.deep_view();
    let ghost added = more.deep_view();
    let mut rest = more;
    list.append(&mut rest);
    assert(list.deep_view() =~= before + added);
}

impl Gathered {
    /// Nothing was gathered.
    pub fn new() -> (r: Self)
        ensures
            r.deep_view() == nothing_gathered(),
            r.sound(),
    {
        let r = Gathered {
            files: Vec::new(),
            paks_extracted: 0,
            files_extracted: 0,
            loca_converted: 0,
            diagnostics: Vec::new(),
            errors: Vec::new(),
        };
        assert(r.files.deep_view() =~= Seq::<FileModel>::empty());
        assert(r.diagnostics.deep_view() =~= Seq::<Seq<char>>::empty());
        assert(r.errors.deep_view() =~= Seq::<Seq<char>>::empty());
        r
    }

    /// As many packages and files as were read.
    pub open spec fn sound(&self) -> bool {
        &&& self.files_extracted == self.files@.len()
        &&& self.paks_extracted < usize::MAX
    }

    /// Takes note of what came of a package.
    pub fn note_pak(&mut self, job: &PakJob, outcome: PakOutcome)
        requires
            old(self).sound(),
        ensures
            final(self).deep_view() == with_pak(
                old(self).deep_view(),
                job.deep_view(),
                outcome.deep_view(),
            ),
            final(self).files_extracted == final(self).files@.len(),
            final(self).paks_extracted <= old(self).paks_extracted + 1,
    {
        match outcome {
            PakOutcome::Loaded { files, note: line } => {
                let ghost more = files.deep_view();
                assert(more.len() == files@.len());
                add_files(&mut self.files, files);
                let n: usize = self.files.len();
                self.files_extracted = n;
                self.paks_extracted = self.paks_extracted + 1;
                note(&mut self.diagnostics, line);
            },
            PakOutcome::Failed(e) => {
                let said = three(job.label.as_str(), ": ", e.as_str());
                let mut line = owned("FAIL ");
                line.append(job.label.as_str());
                line.append(": ");
                line.append(e.as_str());
                note(&mut self.diagnostics, line);
                match job.kind {
                    PakKind::Data => {
                        note(
                            &mut self.errors,
                            three(job.label.as_str(), ".pak: ", e.as_str()),
                        );
                    },
                    PakKind::DiceSet => {},
                    PakKind::Hotfix => {
                        note(&mut self.errors, said);
                    },
                }
            },
        }
    }

    /// Takes note of what came of the localization.
    pub fn note_loca(&mut self, outcome: LocaOutcome)
        requires
            old(self).sound(),
        ensures
            final(self).deep_view() == with_loca(old(self).deep_view(), outcome.deep_view()),
    {
        match outcome {
            LocaOutcome::NoPak => {
                note(&mut self.diagnostics, owned("No English localization pak found"));
            },
            LocaOutcome::Loaded { path, files, note: line } => {
                let ghost more = files.deep_view();
                assert(more.len() == files@.len());
                let count: usize = files.len();
                note(&mut self.diagnostics, glued("Found English loca pak: ", path.as_str()));
                add_files(&mut self.files, files);
                let n: usize = self.files.len();
                self.files_extracted = n;
                self.paks_extracted = self.paks_extracted + 1;
                self.loca_converted = count;
                note(&mut self.diagnostics, line);
            },
            LocaOutcome::Failed { path, error } => {
                note(&mut self.diagnostics, glued("Found English loca pak: ", path.as_str()));
                note(&mut self.errors, glued("Loca extraction: ", error.as_str()));
            },
        }
    }
}

// ---------------------------------------------------------------------------
// The whole run
// ---------------------------------------------------------------------------

/// The files for a database, in their order.
pub open spec fn files_for(files: Seq<FileModel>, target: TargetDb) -> Seq<FileModel>
    decreases files.len(),
{
    if files.len() == 0 {
        Seq::empty()
    } else {
        let before = files_for(files.drop_last(), target);
        if files.last().target_db == target {
            before.push(files.last())
        } else {
            before
        }
    }
}

/// Every file goes to exactly one database.
pub proof fn law_targets_divide(files: Seq<FileModel>)
    ensures
        files_for(files, TargetDb::Base).len() + files_for(files, TargetDb::Honor).len()
            == files.len(),
        forall|i: int|
            0 <= i < files_for(files, TargetDb::Base).len() ==> (#[trigger] files_for(
                files,
                TargetDb::Base,
            )[i]).target_db == TargetDb::Base,
        forall|i: int|
            0 <= i < files_for(files, TargetDb::Honor).len() ==> (#[trigger] files_for(
                files,
                TargetDb::Honor,
            )[i]).target_db == TargetDb::Honor,
    decreases files.len(),
{
    if files.len() > 0 {
        law_targets_divide(files.drop_last());
    }
}

/// The files for the databases.
#[derive(Debug)]
pub struct Divided {
    pub base: Vec<FileEntry>,
    pub honor: Vec<FileEntry>,
}

/// The files for each database, by priority, the highest first.
#[verifier::loop_isolation(false)]
pub fn divide_targets(files: Vec<FileEntry>) -> (r: Divided)
    ensures
        r.base.deep_view() == files_for(
            files::insert_order(files.deep_view()),
            TargetDb::Base,
        ),
        r.honor.deep_view() == files_for(
            files::insert_order(files.deep_view()),
            TargetDb::Honor,
        ),
{
    let mut from = by_priority(files);
    let ghost all = from.deep_view();
    let n: usize = from.len();
    let mut base: Vec<FileEntry> = Vec::new();
    let mut honor: Vec<FileEntry> = Vec::new();
    let mut waiting: Vec<FileEntry> = Vec::new();
    assert(all.len() == n);
    while from.len() > 0
        invariant
            from@.len() + waiting@.len() == n,
            n == all.len(),
            forall|i: int|
                0 <= i < from@.len() ==> (#[trigger] from@[i]).deep_view() == all[i],
            forall|i: int|
                0 <= i < waiting@.len() ==> (#[trigger] waiting@[i]).deep_view() == all[n - 1 - i],
        decreases from@.len(),
    {
        match from.pop() {
            Some(f) => {
                waiting.push(f);
            },
            None => {},
        }
    }
    assert(base.deep_view() =~= files_for(all.take(0), TargetDb::Base));
    assert(honor.deep_view() =~= files_for(all.take(0), TargetDb::Honor));
    let mut k: usize = 0;
    while k < n
        invariant
            k <= n,
            n == all.len(),
            waiting@.len() == n - k,
            forall|i: int|
                0 <= i < waiting@.len() ==> (#[trigger] waiting@[i]).deep_view() == all[n - 1 - i],
            base.deep_view() == files_for(all.take(k as int), TargetDb::Base),
            honor.deep_view() == files_for(all.take(k as int), TargetDb::Honor),
        decreases n - k,
    {
        assert(all.take(k + 1).drop_last() =~= all.take(k as int));
        let ghost a = base.deep_view();
        let ghost b = honor.deep_view();
        match waiting.pop() {
            Some(f) => {
                assert(f.deep_view() == all[k as int]);
                match f.target_db {
                    TargetDb::Base => {
                        base.push(f);
                        assert(base.deep_view() =~= a.push(f.deep_view()));
                    },
                    TargetDb::Honor => {
                        honor.push(f);
                        assert(honor.deep_view() =~= b.push(f.deep_view()));
                    },
                }
            },
            None => {},
        }
        k += 1;
    }
    assert(all.take(k as int) =~= all);
    Divided { base, honor }
}

/// Fails where a database that is to be filled is not there. `hint` says what to
/// do about it.
pub fn check_schema_dbs(
    base_path: &str,
    base_exists: bool,
    honor: &Option<String>,
    honor_exists: bool,
    hint: &str,
) -> (r: Result<(), String>)
    ensures
        match r {
            Ok(_) => base_exists && (honor is Some ==> honor_exists),
            Err(e) => if !base_exists {
                e@ == "Base schema DB not found: "@ + base_path@ + ". "@ + hint@
            } else {
                honor matches Some(h) && !honor_exists && e@ == "Honor schema DB not found: "@
                    + h@ + ". "@ + hint@
            },
        },
{
    if !base_exists {
        let mut e = owned("Base schema DB not found: ");
        e.append(base_path);
        e.append(". ");
        e.append(hint);
        return Err(e);
    }
    match honor {
        Some(h) => {
            if !honor_exists {
                let mut e = owned("Honor schema DB not found: ");
                e.append(h.as_str());
                e.append(". ");
                e.append(hint);
                return Err(e);
            }
        },
        None => {},
    }
    Ok(())
}

/// The options under which the honour database is filled: it looks up in the base
/// database what it lacks.
pub fn honor_options(options: &BuildOptions, base_path: &str) -> (r: BuildOptions)
    ensures
        r.vacuum == options.vacuum,
        r.force_disk == options.force_disk,
        r.fallback_base_db_path.deep_view() == Some(base_path@),
{
    BuildOptions {
        vacuum: options.vacuum,
        force_disk: options.force_disk,
        fallback_base_db_path: Some(owned(base_path)),
    }
}

/// The note on the reading of packages, which took `secs` seconds.
pub open spec fn extract_note(secs: Seq<char>, paks: nat, files: nat) -> Seq<char> {
    "Phase 1 (extract): "@ + secs + "s, "@ + text::decimal(paks) + " paks, "@ + text::decimal(files)
        + " files (streamed)"@
}

fn make_extract_note(secs: &str, paks: usize, files: usize) -> (r: String)
    ensures
        r@ == extract_note(secs@, paks as nat, files as nat),
{
    let paks_text = decimal_text(paks as u64);
    let files_text = decimal_text(files as u64);
    let mut r = owned("Phase 1 (extract): ");
    r.append(secs);
    r.append("s, ");
    r.append(paks_text.as_str());
    r.append(" paks, ");
    r.append(files_text.as_str());
    r.append(" files (streamed)");
    r
}

/// The note on the reading of the localization, which took `secs` seconds.
pub open spec fn localization_note(secs: Seq<char>, files: nat) -> Seq<char> {
    "Phase 2 (localization): "@ + secs + "s, "@ + text::decimal(files) + " loca files"@
}

fn make_localization_note(secs: &str, files: usize) -> (r: String)
    ensures
        r@ == localization_note(secs@, files as nat),
{
    let count = decimal_text(files as u64);
    let mut r = owned("Phase 2 (localization): ");
    r.append(secs);
    r.append("s, ");
    r.append(count.as_str());
    r.append(" loca files");
    r
}

/// The note on the division of files, which took `secs` seconds.
pub fn note_collected(secs: &str, total: usize, base: usize, honor: usize) -> (r: String)
    ensures
        r@ == "Phase 3 (collect): "@ + secs@ + "s, "@ + text::decimal(total as nat) + " total ("@
            + text::decimal(base as nat) + " base, "@ + text::decimal(honor as nat) + " honor)"@,
{
    let total_text = decimal_text(total as u64);
    let base_text = decimal_text(base as u64);
    let honor_text = decimal_text(honor as u64);
    let mut r = owned("Phase 3 (collect): ");
    r.append(secs);
    r.append("s, ");
    r.append(total_text.as_str());
    r.append(" total (");
    r.append(base_text.as_str());
    r.append(" base, ");
    r.append(honor_text.as_str());
    r.append(" honor)");
    r
}

/// What was gathered from packages and the localization, with a note on each
/// phase.
pub open spec fn gathered(
    jobs: Seq<JobModel>,
    outcomes: Seq<PakOutcomeModel>,
    extract_secs: Seq<char>,
    loca: LocaOutcomeModel,
    loca_secs: Seq<char>,
) -> GatheredModel {
    let paks = with_paks(nothing_gathered(), jobs, outcomes);
    let read = with_loca(
        GatheredModel {
            diagnostics: paks.diagnostics.push(
                extract_note(extract_secs, paks.paks_extracted, paks.files_extracted),
            ),
            ..paks
        },
        loca,
    );
    GatheredModel {
        diagnostics: read.diagnostics.push(localization_note(loca_secs, read.loca_converted)),
        ..read
    }
}

/// What a run over the packages comes to.
#[derive(Debug)]
pub struct VanillaRun {
    pub base_files: Vec<FileEntry>,
    pub honor_files: Vec<FileEntry>,
    /// Whether the honour database is filled.
    pub fill_honor: bool,
    pub paks_extracted: usize,
    pub files_extracted: usize,
    pub loca_converted: usize,
    pub errors: Vec<String>,
    pub diagnostics: Vec<String>,
}

/// What a run over the packages comes to, given what came of each of them and how
/// many seconds the phases took: a package that cannot be read does not stop it.
#[verifier::loop_isolation(false)]
pub fn run_vanilla_pipeline(
    jobs: &Vec<PakJob>,
    outcomes: Vec<PakOutcome>,
    extract_secs: &str,
    loca: LocaOutcome,
    loca_secs: &str,
    populate_honor: bool,
) -> (r: VanillaRun)
    requires
        outcomes@.len() <= jobs@.len() < usize::MAX,
    ensures
        ({
            let g = gathered(
                jobs.deep_view(),
                outcomes.deep_view(),
                extract_secs@,
                loca.deep_view(),
                loca_secs@,
            );
            let sorted = files::insert_order(g.files);
            &&& r.base_files.deep_view() == files_for(sorted, TargetDb::Base)
            &&& r.honor_files.deep_view() == files_for(sorted, TargetDb::Honor)
            &&& r.fill_honor == (populate_honor && files_for(sorted, TargetDb::Honor).len() > 0)
            &&& r.paks_extracted == g.paks_extracted
            &&& r.files_extracted == g.files_extracted
            &&& r.loca_converted == g.loca_converted
            &&& r.errors.deep_view() == g.errors
            &&& r.diagnostics.deep_view() == g.diagnostics
        }),
{
    let ghost jm = jobs.deep_view();
    let ghost all = outcomes.deep_view();
    let n: usize = outcomes.len();
    let mut waiting = reversed(outcomes);
    let mut g = Gathered::new();
    assert(all.take(0) =~= Seq::<PakOutcomeModel>::empty());
    let mut i: usize = 0;
    while i < n
        invariant
            i <= n,
            n == all.len(),
            n <= jobs@.len() < usize::MAX,
            jm == jobs.deep_view(),
            waiting@.len() == n - i,
            forall|k: int|
                0 <= k < waiting@.len() ==> (#[trigger] waiting@[k]).deep_view() == all[n - 1 - k],
            g.files_extracted == g.files@.len(),
            g.paks_extracted <= i,
            g.deep_view() == with_paks(nothing_gathered(), jm, all.take(i as int)),
        decreases n - i,
    {
        assert(all.take(i + 1).drop_last() =~= all.take(i as int));
        assert(jm[i as int] == jobs@[i as int].deep_view());
        match waiting.pop() {
            Some(outcome) => {
                assert(outcome.deep_view() == all[i as int]);
                g.note_pak(&jobs[i], outcome);
            },
            None => {},
        }
        i += 1;
    }
    assert(all.take(i as int) =~= all);
    let read = make_extract_note(extract_secs, g.paks_extracted, g.files_extracted);
    note(&mut g.diagnostics, read);
    g.note_loca(loca);
    let localized = make_localization_note(loca_secs, g.loca_converted);
    note(&mut g.diagnostics, localized);
    let divided = divide_targets(g.files);
    assert(divided.honor.deep_view().len() == divided.honor@.len());
    let fill_honor = populate_honor && divided.honor.len() > 0;
    VanillaRun {
        base_files: divided.base,
        honor_files: divided.honor,
        fill_honor,
        paks_extracted: g.paks_extracted,
        files_extracted: g.files_extracted,
        loca_converted: g.loca_converted,
        errors: g.errors,
        diagnostics: g.diagnostics,
    }
}

/// Outcomes in the opposite order.
#[verifier::loop_isolation(false)]
fn reversed(outcomes: Vec<PakOutcome>) -> (r: Vec<PakOutcome>)
    ensures
        r@.len() == outcomes@.len(),
        forall|k: int|
            0 <= k < r@.len() ==> (#[trigger] r@[k]).deep_view() == outcomes.deep_view()[outcomes@.len()
                - 1 - k],
{
    let ghost all = outcomes@;
    let mut from = outcomes;
    let mut r: Vec<PakOutcome> = Vec::new();
    while from.len() > 0
        invariant
            from@.len() + r@.len() == all.len(),
            from@ == all.take(from@.len() as int),
            forall|k: int| 0 <= k < r@.len() ==> #[trigger] r@[k] == all[all.len() - 1 - k],
        decreases from@.len(),
    {
        match from.pop() {
            Some(o) => {
                r.push(o);
            },
            None => {},
        }
        assert(from@ =~= all.take(from@.len() as int));
    }
    r
}

/// The files of packages and what is noted of them, or what is wrong with the
/// first package of the game itself that cannot be read.
pub open spec fn collected(jobs: Seq<JobModel>, outcomes: Seq<PakOutcomeModel>) -> Result<
    (Seq<FileModel>, Seq<Seq<char>>),
    Seq<char>,
>
    decreases outcomes.len(),
{
    if outcomes.len() == 0 {
        Ok((Seq::empty(), Seq::empty()))
    } else {
        let job = jobs[outcomes.len() - 1];
        match collected(jobs, outcomes.drop_last()) {
            Ok(c) => match outcomes.last() {
                PakOutcomeModel::Loaded { files, note } => Ok((c.0 + files, c.1.push(note))),
                PakOutcomeModel::Failed(e) => if job.kind == PakKind::Data {
                    Err(job.label + ".pak: "@ + e)
                } else {
                    Ok((c.0, c.1.push("SKIP "@ + job.label + ": "@ + e)))
                },
            },
            Err(e) => Err(e),
        }
    }
}

/// The files of packages with those of the localization and what is noted of
/// them, or what is wrong.
pub open spec fn collected_all(
    jobs: Seq<JobModel>,
    outcomes: Seq<PakOutcomeModel>,
    loca: LocaOutcomeModel,
) -> Result<(Seq<FileModel>, Seq<Seq<char>>), Seq<char>> {
    match collected(jobs, outcomes) {
        Ok(c) => match loca {
            LocaOutcomeModel::NoPak => Ok(
                (
                    c.0,
                    c.1.push("No English localization pak found"@).push(total_note(c.0.len())),
                ),
            ),
            LocaOutcomeModel::Loaded { path, files, note } => Ok(
                (
                    c.0 + files,
                    c.1.push("Found English loca pak: "@ + path).push(note).push(
                        total_note(c.0.len() + files.len()),
                    ),
                ),
            ),
            LocaOutcomeModel::Failed { path, error } => Err("Loca extraction: "@ + error),
        },
        Err(e) => Err(e),
    }
}

/// The note of the number of files.
pub open spec fn total_note(n: nat) -> Seq<char> {
    "Total: "@ + text::decimal(n) + " files from paks"@
}

fn make_total(n: usize) -> (r: String)
    ensures
        r@ == total_note(n as nat),
{
    let d = decimal_text(n as u64);
    three("Total: ", d.as_str(), " files from paks")
}

/// The files of packages, given what came of each of them, and what is noted of
/// them. It fails where a package of the game itself, or the localization, cannot
/// be read.
#[verifier::loop_isolation(false)]
pub fn collect_files_from_paks(
    jobs: &Vec<PakJob>,
    outcomes: Vec<PakOutcome>,
    loca: LocaOutcome,
) -> (r: Result<(Vec<FileEntry>, Vec<String>), String>)
    requires
        outcomes@.len() <= jobs@.len(),
    ensures
        match r {
            Ok(c) => collected_all(jobs.deep_view(), outcomes.deep_view(), loca.deep_view()) == Ok::<
                (Seq<FileModel>, Seq<Seq<char>>),
                Seq<char>,
            >((c.0.deep_view(), c.1.deep_view())),
            Err(e) => collected_all(
                jobs.deep_view(),
                outcomes.deep_view(),
                loca.deep_view(),
            ) == Err::<(Seq<FileModel>, Seq<Seq<char>>), Seq<char>>(e@),
        },
{
    let ghost jm = jobs.deep_view();
    let ghost all = outcomes.deep_view();
    let n: usize = outcomes.len();
    let mut waiting = reversed(outcomes);
    let mut files: Vec<FileEntry> = Vec::new();
    let mut notes: Vec<String> = Vec::new();
    assert(files.deep_view() =~= Seq::<FileModel>::empty());
    assert(notes.deep_view() =~= Seq::<Seq<char>>::empty());
    assert(all.take(0) =~= Seq::<PakOutcomeModel>::empty());
    let mut i: usize = 0;
    while i < n
        invariant
            i <= n,
            n == all.len(),
            n <= jobs@.len(),
            jm == jobs.deep_view(),
            waiting@.len() == n - i,
            forall|k: int|
                0 <= k < waiting@.len() ==> (#[trigger] waiting@[k]).deep_view() == all[n - 1 - k],
            collected(jm, all.take(i as int)) == Ok::<
                (Seq<FileModel>, Seq<Seq<char>>),
                Seq<char>,
            >((files.deep_view(), notes.deep_view())),
        decreases n - i,
    {
        assert(all.take(i + 1).drop_last() =~= all.take(i as int));
        let job = &jobs[i];
        assert(jm[i as int] == job.deep_view());
        match waiting.pop() {
            Some(outcome) => {
                assert(outcome.deep_view() == all[i as int]);
                match outcome {
                    PakOutcome::Loaded { files: more, note: line } => {
                        add_files(&mut files, more);
                        note(&mut notes, line);
                    },
                    PakOutcome::Failed(e) => {
                        if job.kind == PakKind::Data {
                            let error = three(job.label.as_str(), ".pak: ", e.as_str());
                            proof {
                                lemma_collected_stays(jm, all, i + 1);
                            }
                            return Err(error);
                        }
                        let mut line = owned("SKIP ");
                        line.append(job.label.as_str());
                        line.append(": ");
                        line.append(e.as_str());
                        note(&mut notes, line);
                    },
                }
            },
            None => {},
        }
        i += 1;
    }
    assert(all.take(i as int) =~= all);
    assert(files.deep_view().len() == files@.len());
    match loca {
        LocaOutcome::NoPak => {
            note(&mut notes, owned("No English localization pak found"));
        },
        LocaOutcome::Loaded { path, files: more, note: line } => {
            assert(more.deep_view().len() == more@.len());
            note(&mut notes, glued("Found English loca pak: ", path.as_str()));
            add_files(&mut files, more);
            note(&mut notes, line);
        },
        LocaOutcome::Failed { path, error } => {
            return Err(glued("Loca extraction: ", error.as_str()));
        },
    }
    let count: usize = files.len();
    note(&mut notes, make_total(count));
    Ok((files, notes))
}

proof fn lemma_collected_stays(jobs: Seq<JobModel>, outcomes: Seq<PakOutcomeModel>, k: int)
    requires
        0 <= k <= outcomes.len(),
        collected(jobs, outcomes.take(k)) is Err,
    ensures
        collected(jobs, outcomes) == collected(jobs, outcomes.take(k)),
    decreases outcomes.len() - k,
{
    if k < outcomes.len() {
        assert(outcomes.take(k + 1).drop_last() =~= outcomes.take(k));
        lemma_collected_stays(jobs, outcomes, k + 1);
    } else {
        assert(outcomes.take(k) =~= outcomes);
    }
}

/// The number of localization files.
pub open spec fn loca_files(files: Seq<FileModel>) -> nat
    decreases files.len(),
{
    if files.len() == 0 {
        0
    } else {
        loca_files(files.drop_last()) + (if files.last().file_type == FileType::Loca {
            1nat
        } else {
            0nat
        })
    }
}

#[verifier::loop_isolation(false)]
fn count_loca(files: &Vec<FileEntry>) -> (r: usize)
    ensures
        r == loca_files(files.deep_view()),
{
    let ghost all = files.deep_view();
    let mut r: usize = 0;
    let mut i: usize = 0;
    while i < files.len()
        invariant
            i <= files@.len(),
            r <= i,
            all == files.deep_view(),
            r == loca_files(all.take(i as int)),
        decreases files@.len() - i,
    {
        assert(all.take(i + 1).drop_last() =~= all.take(i as int));
        assert(all[i as int] == files@[i as int].deep_view());
        if files[i].file_type == FileType::Loca {
            r += 1;
        }
        i += 1;
    }
    assert(all.take(i as int) =~= all);
    r
}

/// What filling the databases from packages and editor files comes to.
#[derive(Debug)]
pub struct PopulateRun {
    pub base_files: Vec<FileEntry>,
    pub honor_files: Vec<FileEntry>,
    /// Whether the honour database is filled.
    pub fill_honor: bool,
    /// The number of modules that the files belong to.
    pub paks_extracted: usize,
    /// The number of files from packages.
    pub files_extracted: usize,
    pub loca_converted: usize,
}

/// What filling the databases from packages and editor files comes to. `editor`
/// are the files of the editor, as far as they could be read.
pub fn populate_vanilla_dbs(pak_files: Vec<FileEntry>, editor: Vec<FileEntry>, honor_wanted: bool) -> (r:
    PopulateRun)
    ensures
        ({
            let all = pak_files.deep_view() + editor.deep_view();
            let sorted = files::insert_order(all);
            &&& r.base_files.deep_view() == files_for(sorted, TargetDb::Base)
            &&& r.honor_files.deep_view() == files_for(sorted, TargetDb::Honor)
            &&& r.fill_honor == (honor_wanted && files_for(sorted, TargetDb::Honor).len() > 0)
            &&& r.paks_extracted == partition::source_names(all).len()
            &&& r.files_extracted == pak_files@.len()
            &&& r.loca_converted == loca_files(all)
        }),
{
    let files_extracted: usize = pak_files.len();
    let mut all_files = pak_files;
    add_files(&mut all_files, editor);
    let names = collect_source_names(&all_files);
    assert(names.deep_view().len() == names@.len());
    let paks_extracted: usize = names.len();
    let loca_converted: usize = count_loca(&all_files);
    let divided = divide_targets(all_files);
    assert(divided.honor.deep_view().len() == divided.honor@.len());
    let fill_honor = honor_wanted && divided.honor.len() > 0;
    PopulateRun {
        base_files: divided.base,
        honor_files: divided.honor,
        fill_honor,
        paks_extracted,
        files_extracted,
        loca_converted,
    }
}

/// The settings of a run.
#[derive(Debug)]
pub struct PipelineConfig {
    pub divine_path: String,
    /// The directory of the game's packages.
    pub game_data_path: String,
    pub work_dir: String,
    pub base_db_path: String,
    pub honor_db_path: String,
    pub populate_honor: bool,
    pub build_options: BuildOptions,
    pub cleanup: bool,
}

/// Whether a file of a work directory is one that was extracted, by its
/// extension.
pub fn is_work_file(extension: &str) -> (r: bool)
    ensures
        r == (extension@ == "lsx"@ || extension@ == "lsf"@ || extension@ == "lsfx"@ || extension@
            == "loca"@ || extension@ == "xml"@ || extension@ == "txt"@),
{
    text_eq(extension, "lsx") || text_eq(extension, "lsf") || text_eq(extension, "lsfx")
        || text_eq(extension, "loca") || text_eq(extension, "xml") || text_eq(extension, "txt")
}

} // verus!
