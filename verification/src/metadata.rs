//! Bibliographic metadata from a Zotero library: what is kept for each PDF
//! attachment, how it is put together from the rows of the library's
//! database, and the index that finds it by file name.

use crate::chars::to_chars;
use crate::words::{join, join_range, split_tokens, tokens, Separator};
use vstd::hash_map::StringHashMap;
use vstd::prelude::*;
use vstd::string::StringExecFns;

verus! {

/// What the library knows about the work that a PDF belongs to.
#[derive(Debug)]
pub struct ZoteroMetadata {
    pub citekey: String,
    pub title: Option<String>,
    pub year: Option<String>,
    pub authors: Option<String>,
    pub zotero_link: String,
    pub pdf_attachment_key: Option<String>,
}

/// A `ZoteroMetadata` as plain text values.
pub struct ZoteroMetadataView {
    pub citekey: Seq<char>,
    pub title: Option<Seq<char>>,
    pub year: Option<Seq<char>>,
    pub authors: Option<Seq<char>>,
    pub zotero_link: Seq<char>,
    pub pdf_attachment_key: Option<Seq<char>>,
}

impl DeepView for ZoteroMetadata {
    type V = ZoteroMetadataView;

    open spec fn deep_view(&self) -> ZoteroMetadataView {
        ZoteroMetadataView {
            citekey: self.citekey@,
            title: self.title.deep_view(),
            year: self.year.deep_view(),
            authors: self.authors.deep_view(),
            zotero_link: self.zotero_link@,
            pdf_attachment_key: self.pdf_attachment_key.deep_view(),
        }
    }
}

impl View for ZoteroMetadata {
    type V = ZoteroMetadataView;

    open spec fn view(&self) -> ZoteroMetadataView {
        self.deep_view()
    }
}

/// A copy of an optional string.
pub fn copy_optional(s: &Option<String>) -> (r: Option<String>)
    ensures
        r.deep_view() == s.deep_view(),
{
    match s {
        Some(text) => Some(text.clone()),
        None => None,
    }
}

impl Clone for ZoteroMetadata {
    fn clone(&self) -> (r: Self)
        ensures
            r@ == self@,
    {
        ZoteroMetadata {
            citekey: self.citekey.clone(),
            title: copy_optional(&self.title),
            year: copy_optional(&self.year),
            authors: copy_optional(&self.authors),
            zotero_link: self.zotero_link.clone(),
            pdf_attachment_key: copy_optional(&self.pdf_attachment_key),
        }
    }
}

/// Whether `c` is one of the digits `0` to `9`.
pub open spec fn is_digit(c: char) -> bool {
    '0' <= c <= '9'
}

/// Whether `run` reads as a year from 1000 to 9999: four digits, the first not `0`.
pub open spec fn is_year(run: Seq<char>) -> bool {
    &&& run.len() == 4
    &&& is_digit(run[0]) && run[0] != '0'
    &&& is_digit(run[1])
    &&& is_digit(run[2])
    &&& is_digit(run[3])
}

/// The first of `runs[from..]` that reads as a year.
pub open spec fn first_year(runs: Seq<Seq<char>>, from: int) -> Option<Seq<char>>
    decreases runs.len() - from,
{
    if from < 0 || from >= runs.len() {
        None
    } else if is_year(runs[from]) {
        Some(runs[from])
    } else {
        first_year(runs, from + 1)
    }
}

/// The year in a free-form date: the first run of numeric characters that
/// reads as a year from 1000 to 9999.
pub open spec fn year_of(date: Option<Seq<char>>) -> Option<Seq<char>> {
    match date {
        Some(text) => first_year(tokens(text, Separator::NonNumeric), 0),
        None => None,
    }
}

/// Decides whether `c` is one of the digits `0` to `9`.
pub fn is_digit_char(c: char) -> (r: bool)
    ensures
        r == is_digit(c),
{
    '0' <= c && c <= '9'
}

/// Decides whether `run` reads as a year from 1000 to 9999.
pub fn reads_as_year(run: &str) -> (r: bool)
    ensures
        r == is_year(run@),
{
    let chars = to_chars(run);
    chars.len() == 4 && is_digit_char(chars[0]) && chars[0] != '0' && is_digit_char(chars[1])
        && is_digit_char(chars[2]) && is_digit_char(chars[3])
}

/// Finds the year in a free-form date, such as `2023-01-00 01/2023`.
pub fn extract_year(date: &Option<String>) -> (r: Option<String>)
    ensures
        r.deep_view() == year_of(date.deep_view()),
{
    match date {
        None => None,
        Some(text) => {
            let chars = to_chars(text.as_str());
            proof {
                assert(chars@.subrange(0, chars@.len() as int) =~= chars@);
            }
            let runs = split_tokens(&chars, 0, chars.len(), Separator::NonNumeric);
            let mut i: usize = 0;
            while i < runs.len()
                invariant
                    i <= runs.len(),
                    runs.deep_view() == tokens(text@, Separator::NonNumeric),
                    first_year(runs.deep_view(), i as int) == year_of(date.deep_view()),
                    date.deep_view() == Some(text@),
                decreases runs.len() - i,
            {
                if reads_as_year(runs[i].as_str()) {
                    return Some(runs[i].clone());
                }
                i += 1;
            }
            None
        },
    }
}

/// How one creator is written: first name, a space, last name; where one
/// of the two is missing, the other alone; where both are, nothing.
pub open spec fn creator_name(first: Option<Seq<char>>, last: Option<Seq<char>>) -> Option<
    Seq<char>,
> {
    match (first, last) {
        (Some(f), Some(l)) => Some(f + seq![' '] + l),
        (None, Some(l)) => Some(l),
        (Some(f), None) => Some(f),
        (None, None) => None,
    }
}

/// The names of the creators that have one, in order.
pub open spec fn creator_names(creators: Seq<(Option<Seq<char>>, Option<Seq<char>>)>) -> Seq<
    Seq<char>,
>
    decreases creators.len(),
{
    if creators.len() == 0 {
        Seq::empty()
    } else {
        let before = creator_names(creators.drop_last());
        match creator_name(creators.last().0, creators.last().1) {
            Some(name) => before.push(name),
            None => before,
        }
    }
}

/// The author list of a record: the creators' names with `", "` between
/// them, or nothing where no creator has a name.
pub open spec fn authors_of(creators: Seq<(Option<Seq<char>>, Option<Seq<char>>)>) -> Option<
    Seq<char>,
> {
    let names = creator_names(creators);
    if names.len() == 0 {
        None
    } else {
        Some(join(names, seq![',', ' ']))
    }
}

/// Writes the author list of a record from its creators, each given as
/// first and last name in the order of the record.
pub fn join_creators(creators: &Vec<(Option<String>, Option<String>)>) -> (r: Option<String>)
    ensures
        r.deep_view() == authors_of(creators.deep_view()),
{
    let mut names: Vec<String> = Vec::new();
    let mut i: usize = 0;
    proof {
        assert(creators.deep_view().take(0) =~= Seq::empty());
        assert(names.deep_view() =~= Seq::<Seq<char>>::empty());
    }
    while i < creators.len()
        invariant
            i <= creators.len(),
            names.deep_view() == creator_names(creators.deep_view().take(i as int)),
        decreases creators.len() - i,
    {
        let ghost shown = names.deep_view();
        proof {
            let next = creators.deep_view().take(i + 1);
            assert(next.drop_last() =~= creators.deep_view().take(i as int));
            assert(next.last() == creators@[i as int].deep_view());
            reveal_strlit(" ");
            assert(" "@ =~= seq![' ']);
        }
        match (&creators[i].0, &creators[i].1) {
            (Some(first), Some(last)) => {
                let mut name = first.clone();
                name.append(" ");
                name.append(last.as_str());
                names.push(name);
                proof {
                    assert(names.deep_view() =~= shown.push(first@ + seq![' '] + last@));
                }
            },
            (None, Some(last)) => {
                names.push(last.clone());
                proof {
                    assert(names.deep_view() =~= shown.push(last@));
                }
            },
            (Some(first), None) => {
                names.push(first.clone());
                proof {
                    assert(names.deep_view() =~= shown.push(first@));
                }
            },
            (None, None) => {},
        }
        i += 1;
    }
    proof {
        assert(creators.deep_view().take(creators.deep_view().len() as int)
            =~= creators.deep_view());
    }
    if names.len() == 0 {
        None
    } else {
        proof {
            assert(names.deep_view().subrange(0, names.len() as int) =~= names.deep_view());
            reveal_strlit(", ");
            assert(", "@ =~= seq![',', ' ']);
        }
        Some(join_range(&names, 0, names.len(), ", "))
    }
}

/// The index of the last `c` in `s`, or -1 where `s` holds none.
pub open spec fn last_index_of(s: Seq<char>, c: char) -> int
    decreases s.len(),
{
    if s.len() == 0 {
        -1
    } else if s.last() == c {
        s.len() - 1
    } else {
        last_index_of(s.drop_last(), c)
    }
}

/// The bare file name of an attachment path: what follows the last colon
/// where the path has one (as in `storage:paper.pdf`), else what follows
/// the last slash, else the whole path.
pub open spec fn filename_of(path: Seq<char>) -> Seq<char> {
    if last_index_of(path, ':') >= 0 {
        path.skip(last_index_of(path, ':') + 1)
    } else {
        path.skip(last_index_of(path, '/') + 1)
    }
}

/// The last index of `c` is one, and no later one is.
pub proof fn lemma_last_index_of(s: Seq<char>, c: char)
    ensures
        -1 <= last_index_of(s, c) < s.len(),
        last_index_of(s, c) >= 0 ==> s[last_index_of(s, c)] == c,
        forall|i: int| last_index_of(s, c) < i < s.len() ==> #[trigger] s[i] != c,
    decreases s.len(),
{
    if s.len() > 0 && s.last() != c {
        lemma_last_index_of(s.drop_last(), c);
        assert forall|i: int| last_index_of(s, c) < i < s.len() implies #[trigger] s[i] != c by {
            if i < s.len() - 1 {
                assert(s[i] == s.drop_last()[i]);
            }
        }
    }
}

/// Finds the last `c` in `chars`.
pub fn find_last(chars: &Vec<char>, c: char) -> (r: Option<usize>)
    ensures
        match r {
            Some(i) => i < chars.len() && last_index_of(chars@, c) == i,
            None => last_index_of(chars@, c) == -1,
        },
{
    let mut i: usize = chars.len();
    proof {
        assert(chars@.take(i as int) =~= chars@);
    }
    while i > 0
        invariant
            i <= chars.len(),
            last_index_of(chars@, c) == last_index_of(chars@.take(i as int), c),
        decreases i,
    {
        proof {
            assert(chars@.take(i as int).last() == chars@[i - 1]);
            assert(chars@.take(i as int).drop_last() =~= chars@.take(i - 1));
        }
        if chars[i - 1] == c {
            return Some(i - 1);
        }
        i -= 1;
    }
    None
}

/// The bare file name of an attachment path.
pub fn attachment_filename(path: &str) -> (r: String)
    ensures
        r@ == filename_of(path@),
{
    let chars = to_chars(path);
    let start = match find_last(&chars, ':') {
        Some(colon) => colon + 1,
        None => match find_last(&chars, '/') {
            Some(slash) => slash + 1,
            None => 0,
        },
    };
    proof {
        assert(chars@.skip(start as int) =~= chars@.subrange(start as int, chars@.len() as int));
    }
    crate::chars::string_of(&chars, start, chars.len())
}

/// The record that describes an attachment: its parent, where both the
/// parent's id and key are known, else the attachment itself.
pub open spec fn record_of(
    attachment_id: i32,
    attachment_key: Seq<char>,
    parent_id: Option<i32>,
    parent_key: Option<Seq<char>>,
) -> (i32, Seq<char>) {
    match (parent_id, parent_key) {
        (Some(id), Some(key)) => (id, key),
        _ => (attachment_id, attachment_key),
    }
}

/// Picks the record whose title, date, creators and citation key describe
/// an attachment, by id and key.
pub fn bibliographic_record(
    attachment_id: i32,
    attachment_key: &str,
    parent_id: Option<i32>,
    parent_key: &Option<String>,
) -> (r: (i32, String))
    ensures
        (r.0, r.1@) == record_of(attachment_id, attachment_key@, parent_id, parent_key.deep_view()),
{
    match (parent_id, parent_key) {
        (Some(id), Some(key)) => (id, key.clone()),
        _ => (attachment_id, attachment_key.to_owned()),
    }
}

/// The link that opens the record with key `item_key` in the library.
pub open spec fn link_to(item_key: Seq<char>) -> Seq<char> {
    "zotero://select/library/items/"@ + item_key
}

/// Writes the link that opens the record with key `item_key` in the library.
pub fn library_link(item_key: &str) -> (r: String)
    ensures
        r@ == link_to(item_key@),
{
    let mut link = String::from_str("zotero://select/library/items/");
    link.append(item_key);
    link
}

/// One attachment as read from the library's database, together with what
/// was read about the record that `bibliographic_record` picks for it.
#[derive(Debug)]
pub struct AttachmentRecord {
    pub attachment_id: i32,
    pub attachment_key: String,
    /// Where the attachment is kept, as the database has it.
    pub path: String,
    pub parent_id: Option<i32>,
    pub parent_key: Option<String>,
    /// The picked record's title, where it has one.
    pub title: Option<String>,
    /// The picked record's free-form date, where it has one.
    pub date: Option<String>,
    /// The picked record's creators in order, each as first and last name.
    pub creators: Vec<(Option<String>, Option<String>)>,
    /// The citation key kept for the picked record outside the library's
    /// own tables, where there is one.
    pub citation_key: Option<String>,
}

/// An `AttachmentRecord` as plain values.
pub struct AttachmentRecordView {
    pub attachment_id: i32,
    pub attachment_key: Seq<char>,
    pub path: Seq<char>,
    pub parent_id: Option<i32>,
    pub parent_key: Option<Seq<char>>,
    pub title: Option<Seq<char>>,
    pub date: Option<Seq<char>>,
    pub creators: Seq<(Option<Seq<char>>, Option<Seq<char>>)>,
    pub citation_key: Option<Seq<char>>,
}

impl DeepView for AttachmentRecord {
    type V = AttachmentRecordView;

    open spec fn deep_view(&self) -> AttachmentRecordView {
        AttachmentRecordView {
            attachment_id: self.attachment_id,
            attachment_key: self.attachment_key@,
            path: self.path@,
            parent_id: self.parent_id,
            parent_key: self.parent_key.deep_view(),
            title: self.title.deep_view(),
            date: self.date.deep_view(),
            creators: self.creators.deep_view(),
            citation_key: self.citation_key.deep_view(),
        }
    }
}

impl View for AttachmentRecord {
    type V = AttachmentRecordView;

    open spec fn view(&self) -> AttachmentRecordView {
        self.deep_view()
    }
}

/// The metadata kept for an attachment. The citation key is the one kept
/// outside the library's tables where there is one, else the key of the
/// picked record; the link leads to the picked record.
pub open spec fn metadata_of(record: AttachmentRecordView) -> ZoteroMetadataView {
    let item_key = record_of(
        record.attachment_id,
        record.attachment_key,
        record.parent_id,
        record.parent_key,
    ).1;
    ZoteroMetadataView {
        citekey: match record.citation_key {
            Some(key) => key,
            None => item_key,
        },
        title: record.title,
        year: year_of(record.date),
        authors: authors_of(record.creators),
        zotero_link: link_to(item_key),
        pdf_attachment_key: Some(record.attachment_key),
    }
}

/// Puts together the metadata kept for an attachment.
pub fn attachment_metadata(record: &AttachmentRecord) -> (r: ZoteroMetadata)
    ensures
        r@ == metadata_of(record@),
{
    let (_, item_key) = bibliographic_record(
        record.attachment_id,
        record.attachment_key.as_str(),
        record.parent_id,
        &record.parent_key,
    );
    let zotero_link = library_link(item_key.as_str());
    let citekey = match &record.citation_key {
        Some(key) => key.clone(),
        None => item_key,
    };
    ZoteroMetadata {
        citekey,
        title: copy_optional(&record.title),
        year: extract_year(&record.date),
        authors: join_creators(&record.creators),
        zotero_link,
        pdf_attachment_key: Some(record.attachment_key.clone()),
    }
}

/// Metadata by the bare file name of the PDF it belongs to. File names are
/// compared exactly, letter case included.
pub struct MetadataIndex {
    entries: StringHashMap<ZoteroMetadata>,
}

impl View for MetadataIndex {
    type V = Map<Seq<char>, ZoteroMetadataView>;

    closed spec fn view(&self) -> Map<Seq<char>, ZoteroMetadataView> {
        self.entries@.map_values(|m: ZoteroMetadata| m@)
    }
}

impl MetadataIndex {
    /// An index without entries.
    pub fn new() -> (r: Self)
        ensures
            r@ == Map::<Seq<char>, ZoteroMetadataView>::empty(),
    {
        let index = MetadataIndex { entries: StringHashMap::new() };
        proof {
            assert(index@ =~= Map::<Seq<char>, ZoteroMetadataView>::empty());
        }
        index
    }

    /// Files `metadata` under `file_name`, in place of what was there.
    pub fn insert(&mut self, file_name: String, metadata: ZoteroMetadata)
        ensures
            final(self)@ == old(self)@.insert(file_name@, metadata@),
    {
        self.entries.insert(file_name, metadata);
        proof {
            assert(self@ =~= old(self)@.insert(file_name@, metadata@));
        }
    }

    /// A copy of what is filed under `file_name`.
    pub fn get(&self, file_name: &str) -> (r: Option<ZoteroMetadata>)
        ensures
            r.deep_view() == if self@.contains_key(file_name@) {
                Some(self@[file_name@])
            } else {
                None
            },
    {
        match self.entries.get(file_name) {
            Some(metadata) => Some(metadata.clone()),
            None => None,
        }
    }

    /// Whether anything is filed under `file_name`.
    pub fn contains(&self, file_name: &str) -> (r: bool)
        ensures
            r == self@.contains_key(file_name@),
    {
        self.entries.contains_key(file_name)
    }
}

/// The index that the records give when they are filed in order, each
/// under the bare file name of its path: of two with the same file name
/// the later one stays.
pub open spec fn index_of(records: Seq<AttachmentRecordView>) -> Map<Seq<char>, ZoteroMetadataView>
    decreases records.len(),
{
    if records.len() == 0 {
        Map::empty()
    } else {
        index_of(records.drop_last()).insert(
            filename_of(records.last().path),
            metadata_of(records.last()),
        )
    }
}

/// Builds the index from the attachments of a library.
pub fn build_zotero_map(records: &Vec<AttachmentRecord>) -> (r: MetadataIndex)
    ensures
        r@ == index_of(records.deep_view()),
{
    let mut index = MetadataIndex::new();
    let mut i: usize = 0;
    proof {
        assert(records.deep_view().take(0) =~= Seq::empty());
    }
    while i < records.len()
        invariant
            i <= records.len(),
            index@ == index_of(records.deep_view().take(i as int)),
        decreases records.len() - i,
    {
        proof {
            let next = records.deep_view().take(i + 1);
            assert(next.drop_last() =~= records.deep_view().take(i as int));
            assert(next.last() == records@[i as int]@);
        }
        let file_name = attachment_filename(records[i].path.as_str());
        let metadata = attachment_metadata(&records[i]);
        index.insert(file_name, metadata);
        i += 1;
    }
    proof {
        assert(records.deep_view().take(records.deep_view().len() as int)
            =~= records.deep_view());
    }
    index
}

} // verus!
