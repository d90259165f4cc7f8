//! The note store.
//!
//! A `NoteStore` is the in-memory model of the notes directory: one record
//! per file, keyed by filename.  Every store operation is specified against
//! `as_map`, the finite map from filename to file record; the surrounding
//! process mirrors each operation onto the disk.  Listing derives a display
//! title from each Markdown filename and orders the notes by their numeric
//! modification time, newest first.

use crate::errors::NoteError;
use crate::names::first_dash;
use crate::names::is_md_name;
use crate::names::is_md_filename;
use crate::names::note_filename;
use crate::names::note_title;
use crate::names::make_note_filename;
use crate::names::rename_filename;
use crate::names::renamed_note_filename;
use crate::names::title_of;
use crate::numerals::dec_str;
use crate::numerals::dec_val;
use crate::numerals::lemma_dec_str_len;
use crate::numerals::lemma_dec_val_of_dec_str;
use crate::numerals::u64_to_dec;
use vstd::multiset::Multiset;
use vstd::prelude::*;
use vstd::string::StrSliceExecFns;
use vstd::string::StringExecFns;

verus! {

broadcast use {
    vstd::seq_lib::group_seq_properties,
    vstd::seq_lib::group_to_multiset_ensures,
    vstd::multiset::group_multiset_axioms,
};

/// One file of the notes directory, as the store models it: its name, its
/// full text, and its modification and creation times in seconds since the
/// epoch, absent when the filesystem does not expose them.
pub struct StoredFile {
    pub name: String,
    pub content: String,
    pub modified_secs: Option<u64>,
    pub created_secs: Option<u64>,
}

/// The mathematical image of a `StoredFile`.
pub ghost struct FileEntry {
    pub name: Seq<char>,
    pub content: Seq<char>,
    pub modified_secs: Option<u64>,
    pub created_secs: Option<u64>,
}

impl View for StoredFile {
    type V = FileEntry;

    open spec fn view(&self) -> FileEntry {
        FileEntry {
            name: self.name@,
            content: self.content@,
            modified_secs: self.modified_secs,
            created_secs: self.created_secs,
        }
    }
}

/// One note as a listing shows it: the filename, the derived title, the
/// full text, and the two timestamps rendered as decimal strings of seconds
/// (empty when unavailable; creation falls back to modification).
pub struct NoteItem {
    pub filename: String,
    pub title: String,
    pub content: String,
    pub created: String,
    pub modified: String,
}

/// The mathematical image of a `NoteItem`.
pub ghost struct NoteItemV {
    pub filename: Seq<char>,
    pub title: Seq<char>,
    pub content: Seq<char>,
    pub created: Seq<char>,
    pub modified: Seq<char>,
}

impl View for NoteItem {
    type V = NoteItemV;

    open spec fn view(&self) -> NoteItemV {
        NoteItemV {
            filename: self.filename@,
            title: self.title@,
            content: self.content@,
            created: self.created@,
            modified: self.modified@,
        }
    }
}

/// A decimal rendering of a timestamp, or empty when it is absent.
pub open spec fn rendered_time(o: Option<u64>) -> Seq<char> {
    match o {
        Option::Some(t) => dec_str(t as nat),
        Option::None => Seq::empty(),
    }
}

/// The listing entry a file record yields.
pub open spec fn note_item_of(e: FileEntry) -> NoteItemV {
    NoteItemV {
        filename: e.name,
        title: title_of(e.name),
        content: e.content,
        created: match e.created_secs {
            Option::Some(t) => dec_str(t as nat),
            Option::None => rendered_time(e.modified_secs),
        },
        modified: rendered_time(e.modified_secs),
    }
}

/// The listing entries of a directory: one per file whose name ends in
/// `.md`, in directory order.
pub open spec fn listed_items(s: Seq<FileEntry>) -> Seq<NoteItemV>
    decreases s.len(),
{
    if s.len() == 0 {
        Seq::empty()
    } else {
        listed_items(s.drop_last()) + (if is_md_name(s.last().name) {
            seq![note_item_of(s.last())]
        } else {
            Seq::empty()
        })
    }
}

/// The sort key of a listing entry: its modification time read back as a
/// number, with an absent (empty) time below every present one.
pub open spec fn item_key(it: NoteItemV) -> int {
    if it.modified.len() == 0 {
        -1
    } else {
        dec_val(it.modified) as int
    }
}

/// Newest first: the keys never grow along the sequence.
pub open spec fn sorted_newest_first(s: Seq<NoteItemV>) -> bool {
    forall|i: int, j: int| 0 <= i <= j < s.len() ==> item_key(s[j]) <= item_key(s[i])
}

/// The map a sequence of file records describes, a later record with the
/// same name overriding an earlier one.
pub open spec fn map_of(s: Seq<FileEntry>) -> Map<Seq<char>, FileEntry>
    decreases s.len(),
{
    if s.len() == 0 {
        Map::empty()
    } else {
        map_of(s.drop_last()).insert(s.last().name, s.last())
    }
}

/// No two records share a name.
pub open spec fn unique_names(s: Seq<FileEntry>) -> bool {
    forall|i: int, j: int| 0 <= i < j < s.len() ==> s[i].name != s[j].name
}

proof fn lemma_map_of_index(s: Seq<FileEntry>, i: int)
    requires
        unique_names(s),
        0 <= i < s.len(),
    ensures
        map_of(s).contains_key(s[i].name),
        map_of(s)[s[i].name] == s[i],
    decreases s.len(),
{
    if i < s.len() - 1 {
        lemma_map_of_index(s.drop_last(), i);
    }
}

proof fn lemma_map_of_absent(s: Seq<FileEntry>, n: Seq<char>)
    requires
        forall|i: int| 0 <= i < s.len() ==> s[i].name != n,
    ensures
        !map_of(s).contains_key(n),
    decreases s.len(),
{
    if s.len() > 0 {
        lemma_map_of_absent(s.drop_last(), n);
    }
}

proof fn lemma_map_of_push(s: Seq<FileEntry>, e: FileEntry)
    ensures
        map_of(s.push(e)) == map_of(s).insert(e.name, e),
{
    assert(s.push(e).drop_last() =~= s);
}

proof fn lemma_map_of_update(s: Seq<FileEntry>, i: int, e: FileEntry)
    requires
        unique_names(s),
        0 <= i < s.len(),
        e.name == s[i].name,
    ensures
        map_of(s.update(i, e)) == map_of(s).insert(e.name, e),
    decreases s.len(),
{
    if i == s.len() - 1 {
        assert(s.update(i, e).drop_last() =~= s.drop_last());
        assert(s.update(i, e).last() == e);
        assert(map_of(s.drop_last()).insert(s.last().name, s.last()).insert(e.name, e)
            =~= map_of(s.drop_last()).insert(e.name, e));
    } else {
        lemma_map_of_update(s.drop_last(), i, e);
        assert(s.update(i, e).drop_last() =~= s.drop_last().update(i, e));
        assert(s.update(i, e).last() == s.last());
        assert(map_of(s.drop_last()).insert(e.name, e).insert(s.last().name, s.last())
            =~= map_of(s.drop_last()).insert(s.last().name, s.last()).insert(e.name, e));
    }
}

proof fn lemma_map_of_remove(s: Seq<FileEntry>, i: int)
    requires
        unique_names(s),
        0 <= i < s.len(),
    ensures
        map_of(s.remove(i)) == map_of(s).remove(s[i].name),
    decreases s.len(),
{
    if i == s.len() - 1 {
        assert(s.remove(i) =~= s.drop_last());
        lemma_map_of_absent(s.drop_last(), s[i].name);
        assert(map_of(s.drop_last()) =~= map_of(s.drop_last()).insert(
            s.last().name,
            s.last(),
        ).remove(s[i].name));
    } else {
        lemma_map_of_remove(s.drop_last(), i);
        assert(s.remove(i).drop_last() =~= s.drop_last().remove(i));
        assert(s.remove(i).last() == s.last());
        assert(map_of(s.drop_last()).remove(s[i].name).insert(s.last().name, s.last())
            =~= map_of(s.drop_last()).insert(s.last().name, s.last()).remove(s[i].name));
    }
}

fn str_eq(a: &str, b: &str) -> (r: bool)
    ensures
        r == (a@ == b@),
{
    let la = a.unicode_len();
    let lb = b.unicode_len();
    if la != lb {
        return false;
    }
    let mut i: usize = 0;
    while i < la
        invariant
            i <= la,
            la == a@.len(),
            la == b@.len(),
            forall|j: int| 0 <= j < i ==> a@[j] == b@[j],
        decreases la - i,
    {
        if a.get_char(i) != b.get_char(i) {
            return false;
        }
        i = i + 1;
    }
    proof {
        assert(a@ =~= b@);
    }
    true
}

struct Keyed {
    item: NoteItem,
    has_ts: bool,
    ts: u64,
}

/// The key fields carry the numeric modification time that the item's
/// `modified` string renders.
spec fn keyed_wf(k: Keyed) -> bool {
    k.item@.modified == if k.has_ts {
        dec_str(k.ts as nat)
    } else {
        Seq::<char>::empty()
    }
}

spec fn item_views(s: Seq<Keyed>) -> Seq<NoteItemV> {
    s.map_values(|k: Keyed| k.item@)
}

proof fn lemma_keyed_key(k: Keyed)
    requires
        keyed_wf(k),
    ensures
        item_key(k.item@) == if k.has_ts {
            k.ts as int
        } else {
            -1
        },
{
    if k.has_ts {
        lemma_dec_str_len(k.ts as nat);
        lemma_dec_val_of_dec_str(k.ts as nat);
    }
}

fn keyed_ge(a: &Keyed, b: &Keyed) -> (r: bool)
    requires
        keyed_wf(*a),
        keyed_wf(*b),
    ensures
        r == (item_key(b.item@) <= item_key(a.item@)),
{
    proof {
        lemma_keyed_key(*a);
        lemma_keyed_key(*b);
    }
    if !b.has_ts {
        true
    } else if !a.has_ts {
        false
    } else {
        a.ts >= b.ts
    }
}

fn sort_keyed_desc(input: Vec<Keyed>) -> (out: Vec<Keyed>)
    requires
        forall|i: int| 0 <= i < input@.len() ==> keyed_wf(input@[i]),
    ensures
        item_views(out@).to_multiset() == item_views(input@).to_multiset(),
        sorted_newest_first(item_views(out@)),
{
    let ghost total = item_views(input@).to_multiset();
    let mut src = input;
    let mut out: Vec<Keyed> = Vec::new();
    while src.len() > 0
        invariant
            forall|i: int| 0 <= i < src@.len() ==> keyed_wf(src@[i]),
            item_views(out@).to_multiset().add(item_views(src@).to_multiset()) == total,
            sorted_newest_first(item_views(out@)),
            forall|i: int, j: int|
                0 <= i < src@.len() && 0 <= j < out@.len() ==> item_key(src@[i].item@) <= item_key(
                    out@[j].item@,
                ),
        decreases src@.len(),
    {
        let mut m: usize = 0;
        let mut j: usize = 1;
        while j < src.len()
            invariant
                m < j <= src@.len(),
                src@.len() > 0,
                forall|i: int| 0 <= i < src@.len() ==> keyed_wf(src@[i]),
                forall|t: int|
                    0 <= t < j ==> item_key(src@[t].item@) <= item_key(src@[m as int].item@),
            decreases src@.len() - j,
        {
            if keyed_ge(&src[j], &src[m]) {
                m = j;
            }
            j = j + 1;
        }
        let ghost pre_src = src@;
        let ghost pre_out = out@;
        let x = src.remove(m);
        out.push(x);
        proof {
            assert(item_views(src@) =~= item_views(pre_src).remove(m as int));
            assert(item_views(out@) =~= item_views(pre_out).push(x.item@));
            assert(item_views(pre_src)[m as int] == x.item@);
            assert(item_views(pre_src).contains(x.item@));
            assert(item_views(pre_src).to_multiset().count(x.item@) > 0);
            assert(item_views(out@).to_multiset().add(item_views(src@).to_multiset())
                =~= item_views(pre_out).to_multiset().add(item_views(pre_src).to_multiset()));
            assert forall|a: int, b: int|
                0 <= a <= b < item_views(out@).len() implies item_key(item_views(out@)[b])
                <= item_key(item_views(out@)[a]) by {
                if b == out@.len() - 1 && a < b {
                    assert(item_views(out@)[a] == item_views(pre_out)[a]);
                }
            }
            assert forall|i: int, j2: int|
                0 <= i < src@.len() && 0 <= j2 < out@.len() implies item_key(src@[i].item@)
                <= item_key(out@[j2].item@) by {
                let pi = if i < m as int {
                    i
                } else {
                    i + 1
                };
                assert(src@[i] == pre_src[pi]);
                if j2 < out@.len() - 1 {
                    assert(out@[j2] == pre_out[j2]);
                } else {
                    assert(out@[j2] == x);
                    assert(item_key(pre_src[pi].item@) <= item_key(pre_src[m as int].item@));
                }
            }
        }
    }
    proof {
        assert(item_views(src@) =~= Seq::<NoteItemV>::empty());
        assert(item_views(src@).to_multiset() =~= Multiset::<NoteItemV>::empty());
        assert(item_views(out@).to_multiset() =~= total);
    }
    out
}

/// The in-memory model of the notes directory.
pub struct NoteStore {
    files: Vec<StoredFile>,
}

impl View for NoteStore {
    type V = Seq<FileEntry>;

    closed spec fn view(&self) -> Seq<FileEntry> {
        self.files@.map_values(|f: StoredFile| f@)
    }
}

/// What a freshly created note does to the directory map: the generated
/// filename now holds the given content, with the modification time set to
/// the creation instant; an overwritten note keeps its original creation
/// time.
pub open spec fn after_create(
    m: Map<Seq<char>, FileEntry>,
    now_millis: u64,
    title: Seq<char>,
    content: Seq<char>,
) -> Map<Seq<char>, FileEntry> {
    let name = note_filename(now_millis as nat, title);
    let secs = (now_millis as nat / 1000) as u64;
    let created = if m.contains_key(name) {
        m[name].created_secs
    } else {
        Option::Some(secs)
    };
    m.insert(
        name,
        FileEntry {
            name,
            content,
            modified_secs: Option::Some(secs),
            created_secs: created,
        },
    )
}

/// Creating a note and then reading the filename it returned yields exactly
/// the content that was given: after the create, the directory map carries
/// that content under the new filename.
pub proof fn lemma_create_then_read(
    m: Map<Seq<char>, FileEntry>,
    now_millis: u64,
    title: Seq<char>,
    content: Seq<char>,
)
    ensures
        after_create(m, now_millis, title, content).contains_key(
            note_filename(now_millis as nat, title),
        ),
        after_create(m, now_millis, title, content)[note_filename(now_millis as nat, title)].content
            == content,
{
}

/// What the user's export decision asks the host to do: write this content
/// at this destination.
pub struct SaveRequest {
    pub destination: String,
    pub content: String,
}

impl NoteStore {
    /// No two files of the store share a name.
    pub open spec fn wf(&self) -> bool {
        unique_names(self@)
    }

    /// The directory map: filename to file record.
    pub open spec fn as_map(&self) -> Map<Seq<char>, FileEntry> {
        map_of(self@)
    }

    /// An empty notes directory.
    pub fn new() -> (s: Self)
        ensures
            s@ =~= Seq::<FileEntry>::empty(),
            s.wf(),
    {
        NoteStore { files: Vec::new() }
    }

    /// Adds a file record as read from the disk; an existing record of the
    /// same name is replaced, as a directory holds one file per name.
    pub fn load_file(&mut self, file: StoredFile)
        requires
            old(self).wf(),
        ensures
            final(self).wf(),
            final(self).as_map() == old(self).as_map().insert(file@.name, file@),
    {
        let ghost pre = self@;
        match self.find(file.name.as_str()) {
            Option::Some(i) => {
                let _ = self.files.remove(i);
                self.files.insert(i, file);
                proof {
                    assert(self@ =~= pre.update(i as int, file@));
                    lemma_map_of_update(pre, i as int, file@);
                    assert forall|a: int, b: int| 0 <= a < b < self@.len() implies self@[a].name
                        != self@[b].name by {
                        assert(pre[a].name == self@[a].name || a == i);
                        assert(pre[b].name == self@[b].name || b == i);
                    }
                }
            },
            Option::None => {
                self.files.push(file);
                proof {
                    assert(self@ =~= pre.push(file@));
                    lemma_map_of_push(pre, file@);
                }
            },
        }
    }

    fn find(&self, name: &str) -> (r: Option<usize>)
        ensures
            match r {
                Option::Some(i) => i < self@.len() && self@[i as int].name == name@,
                Option::None => forall|i: int| 0 <= i < self@.len() ==> self@[i].name != name@,
            },
    {
        let mut i: usize = 0;
        let n = self.files.len();
        while i < n
            invariant
                i <= n,
                n == self@.len(),
                self@.len() == self.files@.len(),
                forall|j: int| 0 <= j < i ==> self@[j].name != name@,
            decreases n - i,
        {
            if str_eq(self.files[i].name.as_str(), name) {
                return Option::Some(i);
            }
            i = i + 1;
        }
        Option::None
    }

    /// Creates a note: derives the filename from the creation instant and
    /// the sanitized title, stores the content under it, and returns the
    /// filename.  A colliding filename is overwritten.
    pub fn create_note(&mut self, now_millis: u64, title: &str, content: String) -> (filename:
        String)
        requires
            old(self).wf(),
        ensures
            final(self).wf(),
            filename@ == note_filename(now_millis as nat, title@),
            final(self).as_map() == after_create(old(self).as_map(), now_millis, title@, content@),
    {
        let ghost pre = self@;
        let filename = make_note_filename(now_millis, title);
        let secs = now_millis / 1000;
        match self.find(filename.as_str()) {
            Option::Some(i) => {
                let old_rec = self.files.remove(i);
                let rec = StoredFile {
                    name: old_rec.name,
                    content,
                    modified_secs: Option::Some(secs),
                    created_secs: old_rec.created_secs,
                };
                self.files.insert(i, rec);
                proof {
                    assert(self@ =~= pre.update(i as int, rec@));
                    lemma_map_of_index(pre, i as int);
                    lemma_map_of_update(pre, i as int, rec@);
                    assert forall|a: int, b: int| 0 <= a < b < self@.len() implies self@[a].name
                        != self@[b].name by {
                        assert(pre[a].name == self@[a].name || a == i);
                        assert(pre[b].name == self@[b].name || b == i);
                    }
                }
            },
            Option::None => {
                let rec = StoredFile {
                    name: filename.clone(),
                    content,
                    modified_secs: Option::Some(secs),
                    created_secs: Option::Some(secs),
                };
                self.files.push(rec);
                proof {
                    assert(self@ =~= pre.push(rec@));
                    lemma_map_of_push(pre, rec@);
                    lemma_map_of_absent(pre, filename@);
                }
            },
        }
        filename
    }

    /// Reads the full text of a note; a filename the store does not hold is
    /// reported as `NotFound`.
    pub fn read_note(&self, filename: &str) -> (r: Result<String, NoteError>)
        requires
            self.wf(),
        ensures
            self.as_map().contains_key(filename@) ==> (r matches Ok(c) && c@ == self.as_map()[
                filename@].content),
            !self.as_map().contains_key(filename@) ==> r == Err::<String, NoteError>(
                NoteError::NotFound,
            ),
    {
        match self.find(filename) {
            Option::Some(i) => {
                proof {
                    lemma_map_of_index(self@, i as int);
                }
                Ok(self.files[i].content.clone())
            },
            Option::None => {
                proof {
                    lemma_map_of_absent(self@, filename@);
                }
                Err(NoteError::NotFound)
            },
        }
    }

    /// Overwrites the content of an existing note at the given instant; a
    /// filename the store does not hold is reported as `NotFound` and the
    /// store is left exactly as it was.
    pub fn update_note(&mut self, filename: &str, content: String, now_millis: u64) -> (r: Result<
        (),
        NoteError,
    >)
        requires
            old(self).wf(),
        ensures
            final(self).wf(),
            !old(self).as_map().contains_key(filename@) ==> r == Err::<(), NoteError>(
                NoteError::NotFound,
            ) && final(self)@ == old(self)@,
            old(self).as_map().contains_key(filename@) ==> r == Ok::<(), NoteError>(())
                && final(self).as_map() == old(self).as_map().insert(
                filename@,
                FileEntry {
                    name: filename@,
                    content: content@,
                    modified_secs: Option::Some((now_millis as nat / 1000) as u64),
                    created_secs: old(self).as_map()[filename@].created_secs,
                },
            ),
    {
        let ghost pre = self@;
        match self.find(filename) {
            Option::Some(i) => {
                let old_rec = self.files.remove(i);
                let rec = StoredFile {
                    name: old_rec.name,
                    content,
                    modified_secs: Option::Some(now_millis / 1000),
                    created_secs: old_rec.created_secs,
                };
                self.files.insert(i, rec);
                proof {
                    assert(self@ =~= pre.update(i as int, rec@));
                    lemma_map_of_index(pre, i as int);
                    lemma_map_of_update(pre, i as int, rec@);
                    assert forall|a: int, b: int| 0 <= a < b < self@.len() implies self@[a].name
                        != self@[b].name by {
                        assert(pre[a].name == self@[a].name || a == i);
                        assert(pre[b].name == self@[b].name || b == i);
                    }
                }
                Ok(())
            },
            Option::None => {
                proof {
                    lemma_map_of_absent(pre, filename@);
                }
                Err(NoteError::NotFound)
            },
        }
    }

    /// Removes a note; a filename the store does not hold is reported as
    /// `NotFound` and the store is left exactly as it was.
    pub fn delete_note(&mut self, filename: &str) -> (r: Result<(), NoteError>)
        requires
            old(self).wf(),
        ensures
            final(self).wf(),
            !old(self).as_map().contains_key(filename@) ==> r == Err::<(), NoteError>(
                NoteError::NotFound,
            ) && final(self)@ == old(self)@,
            old(self).as_map().contains_key(filename@) ==> r == Ok::<(), NoteError>(())
                && final(self).as_map() == old(self).as_map().remove(filename@),
    {
        let ghost pre = self@;
        match self.find(filename) {
            Option::Some(i) => {
                let _ = self.files.remove(i);
                proof {
                    assert(self@ =~= pre.remove(i as int));
                    lemma_map_of_index(pre, i as int);
                    lemma_map_of_remove(pre, i as int);
                    assert forall|a: int, b: int| 0 <= a < b < self@.len() implies self@[a].name
                        != self@[b].name by {
                        let pa = if a < i { a } else { a + 1 };
                        let pb = if b < i { b } else { b + 1 };
                        assert(self@[a].name == pre[pa].name);
                        assert(self@[b].name == pre[pb].name);
                    }
                }
                Ok(())
            },
            Option::None => {
                proof {
                    lemma_map_of_absent(pre, filename@);
                }
                Err(NoteError::NotFound)
            },
        }
    }

    /// Renames a note: keeps the timestamp prefix of the old filename,
    /// replaces the title suffix with the sanitized new title, and returns
    /// the new filename.  A missing note is `NotFound`; an old filename
    /// without a `-` is `InvalidInput`; either failure leaves the store
    /// exactly as it was.  A note already at the new filename is
    /// overwritten.
    pub fn rename_note(&mut self, old_filename: &str, new_title: &str) -> (r: Result<
        String,
        NoteError,
    >)
        requires
            old(self).wf(),
        ensures
            final(self).wf(),
            !old(self).as_map().contains_key(old_filename@) ==> r == Err::<String, NoteError>(
                NoteError::NotFound,
            ) && final(self)@ == old(self)@,
            old(self).as_map().contains_key(old_filename@) && first_dash(old_filename@) < 0 ==> r
                == Err::<String, NoteError>(NoteError::InvalidInput) && final(self)@ == old(self)@,
            old(self).as_map().contains_key(old_filename@) && first_dash(old_filename@) >= 0 ==> (
            r matches Ok(nf) && nf@ == renamed_note_filename(old_filename@, new_title@)
                && final(self).as_map() == old(self).as_map().remove(old_filename@).insert(
                nf@,
                FileEntry {
                    name: nf@,
                    content: old(self).as_map()[old_filename@].content,
                    modified_secs: old(self).as_map()[old_filename@].modified_secs,
                    created_secs: old(self).as_map()[old_filename@].created_secs,
                },
            )),
    {
        let ghost pre = self@;
        let i = match self.find(old_filename) {
            Option::Some(i) => i,
            Option::None => {
                proof {
                    lemma_map_of_absent(pre, old_filename@);
                }
                return Err(NoteError::NotFound);
            },
        };
        proof {
            lemma_map_of_index(pre, i as int);
        }
        let new_name = match rename_filename(old_filename, new_title) {
            Ok(s) => s,
            Err(e) => {
                return Err(e);
            },
        };
        let mut rec = self.files.remove(i);
        let ghost mid = self@;
        proof {
            assert(mid =~= pre.remove(i as int));
            lemma_map_of_remove(pre, i as int);
            assert forall|a: int, b: int| 0 <= a < b < mid.len() implies mid[a].name
                != mid[b].name by {
                let pa = if a < i { a } else { a + 1 };
                let pb = if b < i { b } else { b + 1 };
                assert(mid[a].name == pre[pa].name);
                assert(mid[b].name == pre[pb].name);
            }
        }
        // the rename overwrites whatever already sat at the new filename
        match self.find(new_name.as_str()) {
            Option::Some(j) => {
                let _ = self.files.remove(j);
                proof {
                    let mid2 = self@;
                    assert(mid2 =~= mid.remove(j as int));
                    lemma_map_of_remove(mid, j as int);
                    assert forall|a: int, b: int| 0 <= a < b < mid2.len() implies mid2[a].name
                        != mid2[b].name by {
                        let pa = if a < j { a } else { a + 1 };
                        let pb = if b < j { b } else { b + 1 };
                        assert(mid2[a].name == mid[pa].name);
                        assert(mid2[b].name == mid[pb].name);
                    }
                    assert forall|k: int| 0 <= k < mid2.len() implies mid2[k].name != new_name@ by {
                        let pk = if k < j { k } else { k + 1 };
                        assert(mid2[k].name == mid[pk].name);
                    }
                }
            },
            Option::None => {},
        }
        let ghost base = self@;
        rec.name = new_name.clone();
        self.files.push(rec);
        proof {
            assert(self@ =~= base.push(rec@));
            lemma_map_of_push(base, rec@);
            lemma_map_of_absent(base, new_name@);
            assert(map_of(base) =~= map_of(mid).remove(new_name@));
            assert(map_of(base).insert(rec@.name, rec@) =~= map_of(mid).insert(rec@.name, rec@));
        }
        Ok(new_name)
    }

    /// Lists the notes: one entry per file whose name ends in `.md`, with
    /// the display title derived from the filename and the timestamps
    /// rendered in decimal seconds, ordered by numeric modification time,
    /// newest first.
    pub fn list_notes(&self) -> (r: Vec<NoteItem>)
        ensures
            r@.map_values(|it: NoteItem| it@).to_multiset() == listed_items(self@).to_multiset(),
            sorted_newest_first(r@.map_values(|it: NoteItem| it@)),
    {
        let mut keyed: Vec<Keyed> = Vec::new();
        let n = self.files.len();
        let mut i: usize = 0;
        while i < n
            invariant
                i <= n,
                n == self.files@.len(),
                self@.len() == n,
                self@ == self.files@.map_values(|f: StoredFile| f@),
                item_views(keyed@) == listed_items(self@.subrange(0, i as int)),
                forall|t: int| 0 <= t < keyed@.len() ==> keyed_wf(keyed@[t]),
            decreases n - i,
        {
            let ghost pre = keyed@;
            if is_md_filename(self.files[i].name.as_str()) {
                let modified = match self.files[i].modified_secs {
                    Option::Some(t) => u64_to_dec(t),
                    Option::None => String::new(),
                };
                let created = match self.files[i].created_secs {
                    Option::Some(t) => u64_to_dec(t),
                    Option::None => modified.clone(),
                };
                let has_ts = match self.files[i].modified_secs {
                    Option::Some(_) => true,
                    Option::None => false,
                };
                let ts = match self.files[i].modified_secs {
                    Option::Some(t) => t,
                    Option::None => 0,
                };
                let item = NoteItem {
                    filename: self.files[i].name.clone(),
                    title: note_title(self.files[i].name.as_str()),
                    content: self.files[i].content.clone(),
                    created,
                    modified,
                };
                let k = Keyed { item, has_ts, ts };
                proof {
                    assert(k.item@ == note_item_of(self@[i as int]));
                }
                keyed.push(k);
                proof {
                    assert(item_views(keyed@) =~= item_views(pre).push(k.item@));
                }
            }
            proof {
                let sub1 = self@.subrange(0, i as int + 1);
                assert(sub1.drop_last() =~= self@.subrange(0, i as int));
                assert(sub1.last() == self@[i as int]);
                assert(item_views(keyed@) =~= listed_items(sub1));
            }
            i = i + 1;
        }
        proof {
            assert(self@.subrange(0, n as int) =~= self@);
        }
        let mut sorted = sort_keyed_desc(keyed);
        let ghost sorted_views = item_views(sorted@);
        let mut r: Vec<NoteItem> = Vec::new();
        while sorted.len() > 0
            invariant
                r@.len() + sorted@.len() == sorted_views.len(),
                r@.map_values(|it: NoteItem| it@) == sorted_views.subrange(0, r@.len() as int),
                item_views(sorted@) == sorted_views.subrange(
                    r@.len() as int,
                    sorted_views.len() as int,
                ),
            decreases sorted@.len(),
        {
            let ghost pre_r = r@;
            let ghost pre_s = sorted@;
            let k = sorted.remove(0);
            r.push(k.item);
            proof {
                assert(k.item@ == item_views(pre_s)[0]);
                assert(r@.map_values(|it: NoteItem| it@) =~= pre_r.map_values(
                    |it: NoteItem| it@,
                ).push(k.item@));
                assert(r@.map_values(|it: NoteItem| it@) =~= sorted_views.subrange(
                    0,
                    r@.len() as int,
                ));
                assert(item_views(sorted@) =~= item_views(pre_s).remove(0));
                assert(item_views(sorted@) =~= sorted_views.subrange(
                    r@.len() as int,
                    sorted_views.len() as int,
                ));
            }
        }
        proof {
            assert(r@.map_values(|it: NoteItem| it@) =~= sorted_views);
        }
        r
    }

    /// The export decision for a note: its content paired with the
    /// destination the user chose in the save dialog.  A missing note is
    /// `NotFound`; a cancelled dialog (no destination) succeeds with no
    /// write request at all.
    pub fn download_note(&self, filename: &str, chosen_destination: Option<String>) -> (r: Result<
        Option<SaveRequest>,
        NoteError,
    >)
        requires
            self.wf(),
        ensures
            !self.as_map().contains_key(filename@) ==> (r matches Err(e) && e
                == NoteError::NotFound),
            self.as_map().contains_key(filename@) && chosen_destination is None ==> (r matches
                Ok(o) && o is None),
            self.as_map().contains_key(filename@) ==> (chosen_destination matches Some(d) ==> (
            r matches Ok(o) && o matches Some(sr) && sr.destination@ == d@ && sr.content@
                == self.as_map()[filename@].content)),
    {
        let content = match self.read_note(filename) {
            Ok(c) => c,
            Err(e) => {
                return Err(e);
            },
        };
        match chosen_destination {
            Option::Some(destination) => Ok(Option::Some(SaveRequest { destination, content })),
            Option::None => Ok(Option::None),
        }
    }
}

} // verus!
