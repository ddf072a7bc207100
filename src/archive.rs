//! Turning a preset archive into the writes that unpack it under a directory.
//!
//! Entries are read with the `zip` crate. Each kept entry becomes one
//! `ExtractStep` whose path is the target directory joined with a confined
//! relative path, so a driver that performs the steps writes nowhere else, and
//! deletes nothing.

use vstd::prelude::*;
use std::io::Cursor;
use zip::ZipArchive;
use crate::paths::{check_confined, is_confined, join_path, join_spec};

verus! {

/// `zip::ZipArchive`, held opaque; what it holds is named by `archive_entries`.
#[verifier::external_type_specification]
#[verifier::external_body]
#[verifier::reject_recursive_types(R)]
pub struct ExZipArchive<R>(ZipArchive<R>);

/// `std::io::Cursor`, the in-memory reader the archive is read from; opaque.
#[verifier::external_type_specification]
#[verifier::external_body]
#[verifier::reject_recursive_types(T)]
pub struct ExCursor<T>(Cursor<T>);

/// The folder that the published archive puts everything under.
pub const PRESETS_ARCHIVE_ROOT: &'static str = "ai_prompt_presets-main";

/// One entry as a value: raw name, the name that the archive reader accepts as
/// staying inside the archive, decompressed content, Unix mode.
pub type EntryView = (Seq<char>, Option<Seq<char>>, Seq<u8>, Option<u32>);

/// The entries of an open archive, in archive order, as `EntryView`s; `None`
/// for an entry that cannot be read.
pub uninterp spec fn archive_entries(
    a: ZipArchive<Cursor<Vec<u8>>>,
) -> Seq<Option<(Seq<char>, Option<Seq<char>>, Seq<u8>, Option<u32>)>>;

/// What `ZipArchive::new` finds in the bytes: `None` where they are not a
/// readable archive, else its entries as `archive_entries` gives them.
pub uninterp spec fn zip_contents(
    bytes: Seq<u8>,
) -> Option<Seq<Option<(Seq<char>, Option<Seq<char>>, Seq<u8>, Option<u32>)>>>;

/// Relies on `zip::ZipArchive::new`: reads the central directory of an archive
/// held in memory, which depends on the bytes alone.
#[verifier::external_body]
fn open_archive(bytes: Vec<u8>) -> (r: Result<ZipArchive<Cursor<Vec<u8>>>, String>)
    ensures
        r is Ok <==> zip_contents(bytes@) is Some,
        r is Ok ==> archive_entries(r->Ok_0) == zip_contents(bytes@)->Some_0,
{
    ZipArchive::new(Cursor::new(bytes)).map_err(|e| e.to_string())
}

/// Relies on `ZipArchive::len`: the number of entries.
#[verifier::external_body]
fn entry_count(a: &ZipArchive<Cursor<Vec<u8>>>) -> (n: usize)
    ensures
        n == archive_entries(*a).len(),
{
    a.len()
}

/// Relies on `ZipArchive::by_index_decrypt` with an empty password (for an
/// entry that needs none it reads as `by_index` does, but reports a missing
/// password as a value instead of panicking) and on reading the `ZipFile` to
/// its end: the entry at index `i` with its raw name, the name
/// `ZipFile::enclosed_name` accepts (the raw name itself, or none) and the bits
/// of `ZipFile::unix_mode`.
#[verifier::external_body]
fn read_entry(a: &mut ZipArchive<Cursor<Vec<u8>>>, i: usize) -> (r: Result<ArchiveEntry, String>)
    ensures
        archive_entries(*final(a)) == archive_entries(*old(a)),
        r is Ok <==> i < archive_entries(*old(a)).len() && archive_entries(*old(a))[i as int] is Some,
        r is Ok ==> r->Ok_0@ == archive_entries(*old(a))[i as int]->Some_0,
        r is Ok && r->Ok_0.enclosed is Some ==> r->Ok_0.enclosed->Some_0@ == r->Ok_0.name@,
{
    let mut file = match a.by_index_decrypt(i, &[]) {
        Ok(Ok(f)) => f,
        Ok(Err(e)) => return Err(e.to_string()),
        Err(e) => return Err(e.to_string()),
    };
    let mut data = Vec::new();
    std::io::Read::read_to_end(&mut file, &mut data).map_err(|e| e.to_string())?;
    let enclosed = file.enclosed_name().and_then(|p| p.to_str()).map(|s| s.to_string());
    Ok(ArchiveEntry { name: file.name().to_string(), enclosed, data, unix_mode: file.unix_mode() })
}

/// One entry as read from an archive.
#[derive(Debug, Clone)]
pub struct ArchiveEntry {
    /// The name stored in the archive; a directory's ends with `/`.
    pub name: String,
    /// The name, where the archive reader judged it to stay inside the archive.
    pub enclosed: Option<String>,
    /// The decompressed content.
    pub data: Vec<u8>,
    /// Unix permission bits, where the archive records them.
    pub unix_mode: Option<u32>,
}

impl View for ArchiveEntry {
    type V = EntryView;

    open spec fn view(&self) -> EntryView {
        (
            self.name@,
            match self.enclosed {
                Some(p) => Some(p@),
                None => None,
            },
            self.data@,
            self.unix_mode,
        )
    }
}

pub open spec fn entries_view(es: Seq<ArchiveEntry>) -> Seq<EntryView> {
    es.map_values(|e: ArchiveEntry| e@)
}

/// Why unpacking the presets failed.
#[derive(Debug, Clone)]
pub enum IngestError {
    /// The server answered with an error status, or the transfer broke off.
    DownloadFailed(String),
    /// The bytes are not a readable archive.
    CorruptArchive(String),
    /// An entry could not be read, or written where it belongs.
    ExtractionFailure(String),
}

/// One write that unpacking performs: a directory to create, or a file to
/// create or overwrite with `data`.
#[derive(Debug, Clone)]
pub struct ExtractStep {
    pub path: String,
    pub is_dir: bool,
    pub data: Vec<u8>,
    pub unix_mode: Option<u32>,
}

/// An `ExtractStep` as a value.
pub struct PlannedWrite {
    pub path: Seq<char>,
    pub is_dir: bool,
    pub data: Seq<u8>,
    pub unix_mode: Option<u32>,
}

impl View for ExtractStep {
    type V = PlannedWrite;

    open spec fn view(&self) -> PlannedWrite {
        PlannedWrite { path: self.path@, is_dir: self.is_dir, data: self.data@, unix_mode: self.unix_mode }
    }
}

pub open spec fn steps_view(steps: Seq<ExtractStep>) -> Seq<PlannedWrite> {
    steps.map_values(|s: ExtractStep| s@)
}

/// `rel` with the archive's root folder taken off its front, where it starts
/// with that folder.
pub open spec fn strip_root(rel: Seq<char>, root: Seq<char>) -> Seq<char> {
    if rel == root {
        Seq::empty()
    } else if rel.len() > root.len() && rel.subrange(0, root.len() as int) == root && rel[root.len() as int] == '/' {
        rel.subrange(root.len() as int + 1, rel.len() as int)
    } else {
        rel
    }
}

/// Where under the target an entry goes, relative to it; none for an entry
/// whose path could leave the target.
pub open spec fn entry_relative(e: EntryView, root: Seq<char>) -> Option<Seq<char>> {
    match e.1 {
        None => None,
        Some(p) => if is_confined(strip_root(p, root)) {
            Some(strip_root(p, root))
        } else {
            None
        },
    }
}

pub open spec fn ends_with_slash(s: Seq<char>) -> bool {
    s.len() > 0 && s.last() == '/'
}

/// The write that an entry becomes, if any.
pub open spec fn step_of(target: Seq<char>, root: Seq<char>, e: EntryView) -> Option<PlannedWrite> {
    match entry_relative(e, root) {
        None => None,
        Some(rel) => Some(
            PlannedWrite {
                path: join_spec(target, rel),
                is_dir: ends_with_slash(e.0),
                data: if ends_with_slash(e.0) { Seq::empty() } else { e.2 },
                unix_mode: e.3,
            },
        ),
    }
}

/// The writes of a whole archive, in archive order.
pub open spec fn plan_spec(target: Seq<char>, root: Seq<char>, entries: Seq<EntryView>) -> Seq<PlannedWrite>
    decreases entries.len(),
{
    if entries.len() == 0 {
        Seq::empty()
    } else {
        let rest = plan_spec(target, root, entries.drop_last());
        match step_of(target, root, entries.last()) {
            Some(w) => rest.push(w),
            None => rest,
        }
    }
}

fn strip_root_exec(rel: &str, root: &str) -> (r: String)
    ensures
        r@ == strip_root(rel@, root@),
{
    let n = rel.unicode_len();
    let k = root.unicode_len();
    if n == k && String::from_str(rel) == String::from_str(root) {
        return String::new();
    }
    if n > k && rel.get_char(k) == '/' {
        let head = rel.substring_char(0, k);
        if String::from_str(head) == String::from_str(root) {
            return String::from_str(rel.substring_char(k + 1, n));
        }
    }
    proof {
        if rel@ == root@ {
            assert(n == k);
        }
    }
    String::from_str(rel)
}

/// The write that one entry becomes: none where the reader rejected its name or
/// where, once the root folder is taken off, it could leave `target_dir`.
pub fn plan_entry(target_dir: &str, root: &str, e: ArchiveEntry) -> (r: Option<ExtractStep>)
    ensures
        match r {
            Some(s) => step_of(target_dir@, root@, e@) == Some(s@),
            None => step_of(target_dir@, root@, e@) is None,
        },
{
    let ArchiveEntry { name, enclosed, data, unix_mode } = e;
    match enclosed {
        None => None,
        Some(p) => {
            let rel = strip_root_exec(p.as_str(), root);
            if !check_confined(rel.as_str()) {
                return None;
            }
            let n = name.as_str().unicode_len();
            let is_dir = n > 0 && name.as_str().get_char(n - 1) == '/';
            let path = join_path(target_dir, rel.as_str());
            let data = if is_dir {
                Vec::new()
            } else {
                data
            };
            Some(ExtractStep { path, is_dir, data, unix_mode })
        },
    }
}

/// The writes that unpack `entries` under `target_dir`, in archive order.
pub fn plan_extraction(target_dir: &str, root: &str, entries: Vec<ArchiveEntry>) -> (r: Vec<ExtractStep>)
    ensures
        steps_view(r@) == plan_spec(target_dir@, root@, entries_view(entries@)),
{
    let ghost all = entries_view(entries@);
    let total = entries.len();
    let mut rest = entries;
    let mut r: Vec<ExtractStep> = Vec::new();
    let mut i: usize = 0;
    while rest.len() > 0
        invariant
            i + rest@.len() == all.len(),
            total == all.len(),
            entries_view(rest@) == all.subrange(i as int, all.len() as int),
            steps_view(r@) == plan_spec(target_dir@, root@, all.subrange(0, i as int)),
        decreases rest@.len(),
    {
        let ghost before = rest@;
        let e = rest.remove(0);
        proof {
            assert(entries_view(before)[0] == e@);
            assert(e@ == all[i as int]);
            assert(all.subrange(0, i + 1).drop_last() =~= all.subrange(0, i as int));
            assert(rest@ == before.subrange(1, before.len() as int));
            assert forall|j: int| 0 <= j < rest@.len() implies entries_view(rest@)[j] == all[i + 1 + j] by {
                assert(entries_view(before)[j + 1] == before[j + 1]@);
            }
            assert(entries_view(rest@) =~= all.subrange(i + 1, all.len() as int));
        }
        match plan_entry(target_dir, root, e) {
            Some(s) => {
                r.push(s);
                assert(steps_view(r@) =~= plan_spec(target_dir@, root@, all.subrange(0, i as int)).push(s@));
            },
            None => {},
        }
        i = i + 1;
    }
    assert(all.subrange(0, i as int) =~= all);
    r
}

/// Every entry of the archive could be read.
pub open spec fn all_readable(es: Seq<Option<EntryView>>) -> bool {
    forall|j: int| 0 <= j < es.len() ==> (#[trigger] es[j]) is Some
}

/// The entries, where all could be read.
pub open spec fn read_entries(es: Seq<Option<EntryView>>) -> Seq<EntryView> {
    es.map_values(|o: Option<EntryView>| o->Some_0)
}

/// Reads every entry of the archive in `bytes` and plans its unpacking under
/// `target_dir`, taking the folder `root` off the front of each path.
/// Bytes that are not a readable archive give `CorruptArchive`; an entry that
/// cannot be read gives `ExtractionFailure`; otherwise the steps are those of
/// `plan_spec` over the archive's entries.
pub fn extract_presets(target_dir: &str, root: &str, bytes: Vec<u8>) -> (r: Result<Vec<ExtractStep>, IngestError>)
    ensures
        zip_contents(bytes@) is None <==> (r is Err && r->Err_0 is CorruptArchive),
        r is Ok <==> (zip_contents(bytes@) is Some && all_readable(zip_contents(bytes@)->Some_0)),
        (r is Err && r->Err_0 is ExtractionFailure) <==> (zip_contents(bytes@) is Some && !all_readable(
            zip_contents(bytes@)->Some_0,
        )),
        r is Ok ==> steps_view(r->Ok_0@) == plan_spec(target_dir@, root@, read_entries(zip_contents(bytes@)->Some_0)),
{
    let ghost contents = zip_contents(bytes@);
    let mut archive = match open_archive(bytes) {
        Ok(a) => a,
        Err(e) => {
            return Err(IngestError::CorruptArchive(e));
        },
    };
    let ghost es = contents->Some_0;
    let n = entry_count(&archive);
    let mut entries: Vec<ArchiveEntry> = Vec::new();
    let mut i: usize = 0;
    while i < n
        invariant
            contents == zip_contents(bytes@),
            contents is Some,
            es == contents->Some_0,
            n == es.len(),
            archive_entries(archive) == es,
            i <= n,
            entries@.len() == i,
            forall|j: int| 0 <= j < i ==> (#[trigger] es[j]) is Some && entries@[j]@ == es[j]->Some_0,
        decreases n - i,
    {
        match read_entry(&mut archive, i) {
            Ok(e) => {
                entries.push(e);
            },
            Err(err) => {
                assert(!all_readable(es));
                return Err(IngestError::ExtractionFailure(err));
            },
        }
        i = i + 1;
    }
    assert(all_readable(es));
    assert(entries_view(entries@) =~= read_entries(es));
    let steps = plan_extraction(target_dir, root, entries);
    Ok(steps)
}

/// `path` is `target` joined with a relative path that cannot leave it.
pub open spec fn lands_under(target: Seq<char>, path: Seq<char>) -> bool {
    exists|rel: Seq<char>| is_confined(rel) && path == #[trigger] join_spec(target, rel)
}

/// An entry stored under the archive's root folder is written at the same
/// relative path under the target, without that folder.
pub proof fn lemma_root_folder_stripped(target: Seq<char>, root: Seq<char>, e: EntryView, rel: Seq<char>)
    requires
        e.1 is Some,
        e.1->Some_0 == root + seq!['/'] + rel,
        is_confined(rel),
    ensures
        step_of(target, root, e) is Some,
        step_of(target, root, e)->Some_0.path == join_spec(target, rel),
{
    let p = e.1->Some_0;
    assert(p.subrange(0, root.len() as int) =~= root);
    assert(p.subrange(root.len() as int + 1, p.len() as int) =~= rel);
    assert(p != root) by {
        assert(p.len() > root.len());
    }
}

/// Unpacking writes only beneath the target directory: every planned path is
/// the target joined with a relative path that has no `..` component and does
/// not start at the root, whatever names the archive holds.
pub proof fn lemma_plan_stays_under_target(target: Seq<char>, root: Seq<char>, entries: Seq<EntryView>)
    ensures
        forall|j: int|
            0 <= j < plan_spec(target, root, entries).len() ==> lands_under(
                target,
                #[trigger] plan_spec(target, root, entries)[j].path,
            ),
    decreases entries.len(),
{
    if entries.len() > 0 {
        lemma_plan_stays_under_target(target, root, entries.drop_last());
        let rest = plan_spec(target, root, entries.drop_last());
        match entry_relative(entries.last(), root) {
            Some(rel) => {
                let w = step_of(target, root, entries.last())->Some_0;
                assert(lands_under(target, w.path));
                assert forall|j: int| 0 <= j < rest.len() + 1 implies lands_under(
                    target,
                    #[trigger] rest.push(w)[j].path,
                ) by {
                    if j < rest.len() {
                        assert(rest.push(w)[j] == rest[j]);
                    }
                }
            },
            None => {},
        }
    }
}

/// Unpacking leaves alone every path that no entry of the archive maps to:
/// a file already in the target that the archive does not name is neither
/// overwritten nor removed (no step removes anything).
pub proof fn lemma_plan_spares_other_paths(
    target: Seq<char>,
    root: Seq<char>,
    entries: Seq<EntryView>,
    other: Seq<char>,
)
    requires
        forall|i: int|
            0 <= i < entries.len() ==> match #[trigger] step_of(target, root, entries[i]) {
                Some(w) => w.path != other,
                None => true,
            },
    ensures
        forall|j: int|
            0 <= j < plan_spec(target, root, entries).len() ==> #[trigger] plan_spec(
                target,
                root,
                entries,
            )[j].path != other,
    decreases entries.len(),
{
    if entries.len() > 0 {
        let init = entries.drop_last();
        assert forall|i: int| 0 <= i < init.len() implies match #[trigger] step_of(target, root, init[i]) {
            Some(w) => w.path != other,
            None => true,
        } by {
            assert(init[i] == entries[i]);
        }
        lemma_plan_spares_other_paths(target, root, init, other);
        let rest = plan_spec(target, root, init);
        let last_step = step_of(target, root, entries[entries.len() - 1]);
        match last_step {
            Some(w) => {
                assert forall|j: int| 0 <= j < rest.len() + 1 implies #[trigger] rest.push(w)[j].path
                    != other by {
                    if j < rest.len() {
                        assert(rest.push(w)[j] == rest[j]);
                    }
                }
            },
            None => {},
        }
    }
}

} // verus!
