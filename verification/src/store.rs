//! The configuration document and its mutation logic: categories, hotkeys
//! and the directory-to-data-file mapping live in one document, edited by
//! read-modify-write operations that touch only the fields they intend to
//! change. The host performs the file reading and writing and holds the
//! store's exclusive lock around each whole load or mutate cycle; the
//! decisions and the document arithmetic live here.

use vstd::prelude::*;
use vstd::string::StringExecFns;
use crate::text::str_eq;

verus! {

/// One user-defined category.
#[derive(Clone, Debug)]
pub struct CategoryData {
    pub id: String,
    pub name: String,
    pub color: String,
}

/// One user-defined hotkey binding.
#[derive(Clone, Debug)]
pub struct HotkeyData {
    pub id: String,
    pub key: String,
    pub modifiers: Vec<String>,
    pub action: String,
}

/// The single persisted configuration document.
#[derive(Clone, Debug)]
pub struct AppData {
    /// Ordered list of categories.
    pub categories: Vec<CategoryData>,
    /// Ordered list of hotkey bindings.
    pub hotkeys: Vec<HotkeyData>,
    /// Directory path to custom data-file path; `None` when never
    /// populated, equivalent to an empty mapping.
    pub data_file_paths: Option<Vec<(String, String)>>,
}

impl Default for AppData {
    /// The document that stands in for a missing file: everything empty.
    fn default() -> (r: AppData)
        ensures
            r.categories@.len() == 0,
            r.hotkeys@.len() == 0,
            r.data_file_paths is None,
    {
        AppData { categories: Vec::new(), hotkeys: Vec::new(), data_file_paths: None }
    }
}

/// The value mapped to `dir` in an entry list: the first entry with that
/// key, or `None`.
pub open spec fn path_entry_lookup(
    entries: Seq<(String, String)>,
    dir: Seq<char>,
) -> Option<Seq<char>>
    decreases entries.len(),
{
    if entries.len() == 0 {
        None
    } else if entries[0].0@ == dir {
        Some(entries[0].1@)
    } else {
        path_entry_lookup(entries.drop_first(), dir)
    }
}

/// The entry list of a document's mapping; a missing mapping is the empty
/// list.
pub open spec fn dfp_entries(doc: AppData) -> Seq<(String, String)> {
    match doc.data_file_paths {
        None => Seq::empty(),
        Some(v) => v@,
    }
}

/// The custom data-file path recorded for a directory, if any.
pub open spec fn dfp_lookup(doc: AppData, dir: Seq<char>) -> Option<Seq<char>> {
    path_entry_lookup(dfp_entries(doc), dir)
}

/// Writing a mapping entry: the first entry with the same key is replaced
/// in place; a new key is appended at the end.
pub open spec fn set_path_entry(
    entries: Seq<(String, String)>,
    d: String,
    p: String,
) -> Seq<(String, String)>
    decreases entries.len(),
{
    if entries.len() == 0 {
        seq![(d, p)]
    } else if entries[0].0@ == d@ {
        seq![(d, p)] + entries.drop_first()
    } else {
        seq![entries[0]] + set_path_entry(entries.drop_first(), d, p)
    }
}

/// After a write, the written key maps to the written value and every other
/// key maps to what it mapped to before.
pub proof fn lemma_set_path_entry_lookup(entries: Seq<(String, String)>, d: String, p: String)
    ensures
        path_entry_lookup(set_path_entry(entries, d, p), d@) == Some(p@),
        forall|o: Seq<char>|
            o != d@ ==> #[trigger] path_entry_lookup(set_path_entry(entries, d, p), o)
                == path_entry_lookup(entries, o),
    decreases entries.len(),
{
    let se = set_path_entry(entries, d, p);
    if entries.len() == 0 {
        assert(se[0] == (d, p));
        assert(se.drop_first() =~= Seq::<(String, String)>::empty());
        assert forall|o: Seq<char>| o != d@ implies #[trigger] path_entry_lookup(se, o)
            == path_entry_lookup(entries, o) by {
            assert(path_entry_lookup(se.drop_first(), o) is None);
            assert(path_entry_lookup(se, o) is None);
            assert(path_entry_lookup(entries, o) is None);
        }
    } else if entries[0].0@ == d@ {
        assert(se[0] == (d, p));
        assert(se.drop_first() =~= entries.drop_first());
        assert forall|o: Seq<char>| o != d@ implies #[trigger] path_entry_lookup(se, o)
            == path_entry_lookup(entries, o) by {
            assert(path_entry_lookup(se, o) == path_entry_lookup(se.drop_first(), o));
            assert(path_entry_lookup(entries, o) == path_entry_lookup(entries.drop_first(), o));
        }
    } else {
        lemma_set_path_entry_lookup(entries.drop_first(), d, p);
        assert(se[0] == entries[0]);
        assert(se.drop_first() =~= set_path_entry(entries.drop_first(), d, p));
        assert(path_entry_lookup(se, d@) == path_entry_lookup(se.drop_first(), d@));
        assert forall|o: Seq<char>| o != d@ implies #[trigger] path_entry_lookup(se, o)
            == path_entry_lookup(entries, o) by {
            if entries[0].0@ == o {
                assert(path_entry_lookup(se, o) == Some(entries[0].1@));
                assert(path_entry_lookup(entries, o) == Some(entries[0].1@));
            } else {
                assert(path_entry_lookup(se, o) == path_entry_lookup(se.drop_first(), o));
                assert(path_entry_lookup(entries, o) == path_entry_lookup(
                    entries.drop_first(),
                    o,
                ));
            }
        }
    }
}

/// Rewrites the entry list so that `d` maps to `p`, replacing the first
/// entry with key `d` or appending a new one.
fn set_path_entry_exec(entries: Vec<(String, String)>, d: String, p: String) -> (r: Vec<
    (String, String),
>)
    ensures
        r@ == set_path_entry(entries@, d, p),
    decreases entries@.len(),
{
    let mut e = entries;
    if e.len() == 0 {
        let mut out: Vec<(String, String)> = Vec::new();
        out.push((d, p));
        proof {
            assert(out@ =~= set_path_entry(entries@, d, p));
        }
        out
    } else {
        let first: (String, String) = e.remove(0);
        proof {
            assert(e@ =~= entries@.drop_first());
            assert(first == entries@[0]);
        }
        if str_eq(first.0.as_str(), d.as_str()) {
            let mut out: Vec<(String, String)> = Vec::new();
            out.push((d, p));
            let mut rest = e;
            out.append(&mut rest);
            proof {
                assert(out@ =~= set_path_entry(entries@, d, p));
            }
            out
        } else {
            let mut rest: Vec<(String, String)> = set_path_entry_exec(e, d, p);
            let mut out: Vec<(String, String)> = Vec::new();
            out.push(first);
            out.append(&mut rest);
            proof {
                assert(out@ =~= set_path_entry(entries@, d, p));
            }
            out
        }
    }
}

/// One read-modify-write edit of the document. Every edit is a transform of
/// the whole document that touches only the fields it names.
pub enum ConfigOp {
    /// Replace the category and hotkey lists, leaving the directory-path
    /// mapping untouched.
    SetCategoriesHotkeys { categories: Vec<CategoryData>, hotkeys: Vec<HotkeyData> },
    /// Record a custom data-file path for one directory, leaving categories
    /// and hotkeys untouched.
    SetDataFilePath { directory: String, data_file_path: String },
    /// Append one category, leaving everything else untouched.
    AddCategory { category: CategoryData },
}

/// How a document after an edit relates to the document before it: each
/// edit pins the fields it changes and leaves the others exactly equal.
pub open spec fn applies_op(doc: AppData, op: ConfigOp, r: AppData) -> bool {
    match op {
        ConfigOp::SetCategoriesHotkeys { categories, hotkeys } => {
            &&& r.categories == categories
            &&& r.hotkeys == hotkeys
            &&& r.data_file_paths == doc.data_file_paths
        },
        ConfigOp::SetDataFilePath { directory, data_file_path } => {
            &&& r.categories == doc.categories
            &&& r.hotkeys == doc.hotkeys
            &&& r.data_file_paths matches Some(v) && v@ == set_path_entry(
                dfp_entries(doc),
                directory,
                data_file_path,
            )
        },
        ConfigOp::AddCategory { category } => {
            &&& r.categories@ == doc.categories@.push(category)
            &&& r.hotkeys == doc.hotkeys
            &&& r.data_file_paths == doc.data_file_paths
        },
    }
}

/// Applies one edit to the document.
pub fn apply_op(doc: AppData, op: ConfigOp) -> (r: AppData)
    ensures
        applies_op(doc, op, r),
{
    match op {
        ConfigOp::SetCategoriesHotkeys { categories, hotkeys } => AppData {
            categories,
            hotkeys,
            data_file_paths: doc.data_file_paths,
        },
        ConfigOp::SetDataFilePath { directory, data_file_path } => {
            let entries: Vec<(String, String)> = match doc.data_file_paths {
                None => Vec::new(),
                Some(v) => v,
            };
            let updated: Vec<(String, String)> = set_path_entry_exec(
                entries,
                directory,
                data_file_path,
            );
            AppData {
                categories: doc.categories,
                hotkeys: doc.hotkeys,
                data_file_paths: Some(updated),
            }
        },
        ConfigOp::AddCategory { category } => {
            let mut cats = doc.categories;
            cats.push(category);
            AppData { categories: cats, hotkeys: doc.hotkeys, data_file_paths: doc.data_file_paths }
        },
    }
}

/// What the host found when it read the backing file under the lock.
pub enum LoadOutcome {
    /// No file exists yet; the store behaves as the default document.
    Missing,
    /// The file existed and deserialized into a document.
    Parsed(AppData),
    /// The file existed but its content is not a well-formed document; the
    /// payload is the parser's message.
    Corrupt(String),
}

/// Loading the store: a missing file yields the default document; a
/// malformed file is a hard failure, never silently reset.
pub fn load_decide(current: LoadOutcome) -> (r: Result<AppData, String>)
    ensures
        current is Missing ==> r is Ok && r->Ok_0.categories@.len() == 0
            && r->Ok_0.hotkeys@.len() == 0 && r->Ok_0.data_file_paths is None,
        current matches LoadOutcome::Parsed(d) ==> r == Ok::<AppData, String>(d),
        current matches LoadOutcome::Corrupt(e) ==> r is Err && r->Err_0@
            == "Failed to parse app data file: "@ + e@,
{
    match current {
        LoadOutcome::Missing => Ok(AppData::default()),
        LoadOutcome::Parsed(d) => Ok(d),
        LoadOutcome::Corrupt(e) => Err(
            String::from_str("Failed to parse app data file: ").concat(e.as_str()),
        ),
    }
}

/// How a mutation outcome relates to a store whose backing file was
/// missing: the edit applies to the all-empty default document.
pub open spec fn applies_op_to_missing(op: ConfigOp, r: AppData) -> bool {
    match op {
        ConfigOp::SetCategoriesHotkeys { categories, hotkeys } => {
            &&& r.categories == categories
            &&& r.hotkeys == hotkeys
            &&& r.data_file_paths is None
        },
        ConfigOp::SetDataFilePath { directory, data_file_path } => {
            &&& r.categories@.len() == 0
            &&& r.hotkeys@.len() == 0
            &&& r.data_file_paths matches Some(v) && v@ == set_path_entry(
                Seq::empty(),
                directory,
                data_file_path,
            )
        },
        ConfigOp::AddCategory { category } => {
            &&& r.categories@ == Seq::<CategoryData>::empty().push(category)
            &&& r.hotkeys@.len() == 0
            &&& r.data_file_paths is None
        },
    }
}

/// One serialized read-modify-write cycle: load or default, apply the edit,
/// and hand back the document to persist. A corrupt file fails the cycle
/// and nothing may be written; the prior content stays untouched.
pub fn mutate_decide(current: LoadOutcome, op: ConfigOp) -> (r: Result<AppData, String>)
    ensures
        current matches LoadOutcome::Parsed(d) ==> r is Ok && applies_op(d, op, r->Ok_0),
        current is Missing ==> r is Ok && applies_op_to_missing(op, r->Ok_0),
        current matches LoadOutcome::Corrupt(e) ==> r is Err && r->Err_0@
            == "Failed to parse app data file: "@ + e@,
{
    match current {
        LoadOutcome::Missing => {
            let base: AppData = AppData::default();
            proof {
                assert(base.categories@ =~= Seq::<CategoryData>::empty());
                assert(dfp_entries(base) =~= Seq::<(String, String)>::empty());
            }
            Ok(apply_op(base, op))
        },
        LoadOutcome::Parsed(d) => Ok(apply_op(d, op)),
        LoadOutcome::Corrupt(e) => Err(
            String::from_str("Failed to parse app data file: ").concat(e.as_str()),
        ),
    }
}

/// The custom data-file path recorded for a directory, if any.
pub fn get_data_file_path(doc: &AppData, directory: &str) -> (r: Option<String>)
    ensures
        match r {
            None => dfp_lookup(*doc, directory@) is None,
            Some(p) => dfp_lookup(*doc, directory@) == Some(p@),
        },
{
    match &doc.data_file_paths {
        None => None,
        Some(v) => {
            let mut i: usize = 0;
            proof {
                assert(v@.skip(0) =~= v@);
            }
            while i < v.len()
                invariant
                    i <= v@.len(),
                    dfp_entries(*doc) == v@,
                    path_entry_lookup(v@, directory@) == path_entry_lookup(
                        v@.skip(i as int),
                        directory@,
                    ),
                decreases v@.len() - i,
            {
                proof {
                    assert(v@.skip(i as int)[0] == v@[i as int]);
                    assert(v@.skip(i as int).drop_first() =~= v@.skip(i + 1));
                }
                let pair: &(String, String) = &v[i];
                if str_eq(pair.0.as_str(), directory) {
                    proof {
                        assert(dfp_entries(*doc) == v@);
                        assert(path_entry_lookup(v@.skip(i as int), directory@) == Some(
                            v@[i as int].1@,
                        ));
                    }
                    return Some(pair.1.clone());
                }
                i = i + 1;
            }
            proof {
                assert(v@.skip(v@.len() as int) =~= Seq::<(String, String)>::empty());
            }
            None
        },
    }
}

/// No lost update: `docs` is the chain of documents seen by a series of
/// serialized mutations, each of which appends one category — exactly what
/// `mutate_decide` guarantees of each `AddCategory` cycle. After all of them
/// the document holds the original categories followed by every appended
/// one, in order: no call's edit is lost.
pub proof fn lemma_no_lost_update(docs: Seq<AppData>, cs: Seq<CategoryData>)
    requires
        docs.len() == cs.len() + 1,
        forall|i: int|
            0 <= i < cs.len() ==> (#[trigger] docs[i + 1].categories)@ == docs[i].categories@.push(
                cs[i],
            ),
    ensures
        docs.last().categories@ == docs[0].categories@ + cs,
        forall|i: int|
            0 <= i < cs.len() ==> docs.last().categories@.contains(#[trigger] cs[i]),
    decreases cs.len(),
{
    if cs.len() == 0 {
        assert(docs[0].categories@ + cs =~= docs[0].categories@);
    } else {
        lemma_no_lost_update(docs.drop_last(), cs.drop_last());
        assert(docs[docs.len() - 2].categories@ == docs[0].categories@ + cs.drop_last());
        assert(docs.last().categories@ == (docs[0].categories@ + cs.drop_last()).push(cs.last()));
        assert((docs[0].categories@ + cs.drop_last()).push(cs.last()) =~= docs[0].categories@ + cs);
    }
    assert forall|i: int| 0 <= i < cs.len() implies docs.last().categories@.contains(
        #[trigger] cs[i],
    ) by {
        assert(docs.last().categories@[docs[0].categories@.len() + i] == cs[i]);
    }
}

/// Field isolation: a mutation that edits only the directory-path mapping
/// leaves the category list and the hotkey list exactly as they were, so
/// any serialization of those lists is unchanged byte for byte.
pub proof fn lemma_path_edit_isolated(doc: AppData, op: ConfigOp, r: AppData)
    requires
        op is SetDataFilePath,
        applies_op(doc, op, r),
    ensures
        r.categories == doc.categories,
        r.hotkeys == doc.hotkeys,
{
}

#[verifier::external_type_specification]
#[verifier::external_body]
#[verifier::reject_recursive_types(T)]
pub struct ExMutex<T: ?Sized>(std::sync::Mutex<T>);

/// The store's exclusive-access primitive. The host must hold it across
/// every whole load or mutate cycle, file reading and writing included, so
/// no load observes a half-written document and no two mutations
/// interleave.
pub struct AppDataMutex {
    lock: std::sync::Mutex<()>,
}

impl AppDataMutex {
    /// The raw mutex, for the host to hold around a load or mutate cycle.
    pub fn raw(&self) -> &std::sync::Mutex<()> {
        &self.lock
    }
}

/// Relies on `std::sync::Mutex::new` to create the lock.
#[verifier::external_body]
fn new_unit_mutex() -> std::sync::Mutex<()> {
    std::sync::Mutex::new(())
}

/// A fresh exclusive lock for one configuration store, owned by whoever
/// constructs the store rather than hidden in global state.
pub fn get_app_data_mutex() -> AppDataMutex {
    AppDataMutex { lock: new_unit_mutex() }
}

} // verus!
