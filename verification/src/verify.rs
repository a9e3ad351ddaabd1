//! The verification engine: the manifest is found in a first pass over the
//! archive's entries, and in a second pass every entry that a record names
//! is digested and judged against the record.

use crate::digest::{is_digest, sha1_hex, sha1_hex_chunked, BUFFER_SIZE, MAX_MESSAGE_LEN};
use crate::manifest::{
    items_view, lines_of, load_spec, ChecksumTypeView, Manifest, ManifestItem, ManifestItemView,
    ManifestView, ParseError,
};
use crate::roundtrip::lemma_parsed_items_well_formed;
use crate::text::{to_chars, utf8_text};
use vstd::prelude::*;
use vstd::utf8::{decode_utf8, encode_utf8_decode_utf8, valid_utf8};

verus! {

/// The verdict on one record.
#[derive(Clone, Copy, Debug, PartialEq, Eq)]
pub enum Outcome {
    /// The computed digest is the declared one.
    Passed,
    /// It is not.
    Failed,
}

/// The verdict on one record and one archive entry of the record's name.
#[derive(Clone, Debug, PartialEq, Eq)]
pub struct VerificationResult {
    pub record_name: String,
    pub algorithm: crate::manifest::ChecksumType,
    pub computed_checksum: String,
    pub outcome: Outcome,
}

/// The mathematical value of a [`VerificationResult`].
pub struct VerificationResultView {
    pub record_name: Seq<char>,
    pub algorithm: ChecksumTypeView,
    pub computed_checksum: Seq<char>,
    pub outcome: Outcome,
}

/// One entry of an archive, as the archive reader presents it.
#[derive(Clone, Debug, PartialEq, Eq)]
pub struct ArchiveEntry {
    pub path: String,
    pub data: Vec<u8>,
}

/// The mathematical value of an [`ArchiveEntry`].
pub struct ArchiveEntryView {
    pub path: Seq<char>,
    pub data: Seq<u8>,
}

/// Why an archive could not be verified.
#[derive(Clone, Debug, PartialEq, Eq)]
pub enum VerifyError {
    /// The manifest entry at this path is not UTF-8 text.
    UnreadableManifest(String),
    /// The manifest did not parse.
    Manifest(ParseError),
}

/// The mathematical value of a [`VerifyError`].
pub enum VerifyErrorView {
    UnreadableManifest(Seq<char>),
    MalformedManifestLine(Seq<char>),
}

/// What verifying an archive yields.
#[derive(Clone, Debug, PartialEq, Eq)]
pub struct Report {
    /// The manifest that was found; the empty one, without a path, where
    /// the archive holds none.
    pub manifest: Manifest,
    /// The verdicts, one for each record and each entry of the record's
    /// name.
    pub results: Vec<VerificationResult>,
    /// The records whose name is the path of no entry, left without a
    /// verdict.
    pub unverified: Vec<ManifestItem>,
}

impl View for VerificationResult {
    type V = VerificationResultView;

    open spec fn view(&self) -> VerificationResultView {
        VerificationResultView {
            record_name: self.record_name@,
            algorithm: self.algorithm@,
            computed_checksum: self.computed_checksum@,
            outcome: self.outcome,
        }
    }
}

impl View for ArchiveEntry {
    type V = ArchiveEntryView;

    open spec fn view(&self) -> ArchiveEntryView {
        ArchiveEntryView { path: self.path@, data: self.data@ }
    }
}

impl View for VerifyError {
    type V = VerifyErrorView;

    open spec fn view(&self) -> VerifyErrorView {
        match self {
            VerifyError::UnreadableManifest(path) => VerifyErrorView::UnreadableManifest(path@),
            VerifyError::Manifest(ParseError::MalformedManifestLine(line)) => {
                VerifyErrorView::MalformedManifestLine(line@)
            },
        }
    }
}

/// The mathematical values of a list of verdicts.
pub open spec fn results_view(results: Seq<VerificationResult>) -> Seq<VerificationResultView> {
    results.map_values(|r: VerificationResult| r@)
}

/// Whether every verdict carries a digest of the proper form.
pub open spec fn carry_digests(results: Seq<VerificationResult>) -> bool {
    forall|j: int| 0 <= j < results.len() ==> is_digest((#[trigger] results[j]).computed_checksum@)
}

/// The mathematical values of a list of entries.
pub open spec fn entries_view(entries: Seq<ArchiveEntry>) -> Seq<ArchiveEntryView> {
    entries.map_values(|e: ArchiveEntry| e@)
}

/// Whether a path names a manifest: it ends in `.mf`.
pub open spec fn has_manifest_suffix(path: Seq<char>) -> bool {
    &&& path.len() >= 3
    &&& path[path.len() - 3] == '.'
    &&& path[path.len() - 2] == 'm'
    &&& path[path.len() - 1] == 'f'
}

/// The verdict on a declared and a computed checksum: they are compared
/// character by character, letter case included.
pub open spec fn verdict(declared: Seq<char>, computed: Seq<char>) -> Outcome {
    if declared == computed {
        Outcome::Passed
    } else {
        Outcome::Failed
    }
}

/// The verdict on `item` for an entry whose digest is `computed`.
pub open spec fn judge(item: ManifestItemView, computed: Seq<char>) -> VerificationResultView {
    VerificationResultView {
        record_name: item.name,
        algorithm: item.checksum_type,
        computed_checksum: computed,
        outcome: verdict(item.checksum, computed),
    }
}

/// Whether some record is named `path`.
pub open spec fn lists(items: Seq<ManifestItemView>, path: Seq<char>) -> bool {
    exists|i: int| 0 <= i < items.len() && (#[trigger] items[i]).name == path
}

/// The verdicts on the entry at `path` whose digest is `computed`: one for
/// each record named `path`, in the order of the records.
pub open spec fn entry_results(
    items: Seq<ManifestItemView>,
    path: Seq<char>,
    computed: Seq<char>,
) -> Seq<VerificationResultView>
    decreases items.len(),
{
    if items.len() == 0 {
        Seq::empty()
    } else {
        let before = entry_results(items.drop_last(), path, computed);
        if items.last().name == path {
            before.push(judge(items.last(), computed))
        } else {
            before
        }
    }
}

/// The verdicts on a whole archive: those on its first entry, then those on
/// its second, and so on.
pub open spec fn archive_results(
    items: Seq<ManifestItemView>,
    entries: Seq<ArchiveEntryView>,
) -> Seq<VerificationResultView>
    decreases entries.len(),
{
    if entries.len() == 0 {
        Seq::empty()
    } else {
        archive_results(items, entries.drop_last()) + entry_results(
            items,
            entries.last().path,
            sha1_hex(entries.last().data),
        )
    }
}

/// The paths of the entries, in the order of the entries.
pub open spec fn paths_of(entries: Seq<ArchiveEntryView>) -> Seq<Seq<char>> {
    entries.map_values(|e: ArchiveEntryView| e.path)
}

/// The mathematical values of a list of paths.
pub open spec fn paths_view(paths: Seq<String>) -> Seq<Seq<char>> {
    paths.map_values(|p: String| p@)
}

/// The records that none of `paths` names, in the order of the records.
pub open spec fn unmatched(items: Seq<ManifestItemView>, paths: Seq<Seq<char>>) -> Seq<
    ManifestItemView,
>
    decreases items.len(),
{
    if items.len() == 0 {
        Seq::empty()
    } else {
        let before = unmatched(items.drop_last(), paths);
        if paths.contains(items.last().name) {
            before
        } else {
            before.push(items.last())
        }
    }
}

/// What the manifest entry `entry` yields.
pub open spec fn read_manifest_spec(entry: ArchiveEntryView) -> Result<
    ManifestView,
    VerifyErrorView,
> {
    if !valid_utf8(entry.data) {
        Err(VerifyErrorView::UnreadableManifest(entry.path))
    } else {
        match load_spec(entry.path, decode_utf8(entry.data)) {
            Ok(m) => Ok(m),
            Err(line) => Err(VerifyErrorView::MalformedManifestLine(line)),
        }
    }
}

/// What the first pass yields: the manifest of the last entry whose path
/// ends in `.mf`, the empty manifest where there is none, or the failure of
/// the first manifest entry that cannot be read or parsed.
pub open spec fn find_manifest_spec(entries: Seq<ArchiveEntryView>) -> Result<
    ManifestView,
    VerifyErrorView,
>
    decreases entries.len(),
{
    if entries.len() == 0 {
        Ok(ManifestView::empty())
    } else {
        match find_manifest_spec(entries.drop_last()) {
            Err(e) => Err(e),
            Ok(m) => if has_manifest_suffix(entries.last().path) {
                read_manifest_spec(entries.last())
            } else {
                Ok(m)
            },
        }
    }
}

/// An entry that no record names yields no verdict.
pub proof fn lemma_unlisted_entry_has_no_results(
    items: Seq<ManifestItemView>,
    path: Seq<char>,
    computed: Seq<char>,
)
    requires
        !lists(items, path),
    ensures
        entry_results(items, path, computed) == Seq::<VerificationResultView>::empty(),
    decreases items.len(),
{
    if items.len() > 0 {
        assert(items.last() == items[items.len() - 1]);
        assert forall|i: int| 0 <= i < items.drop_last().len() implies (
        #[trigger] items.drop_last()[i]).name != path by {
            assert(items.drop_last()[i] == items[i]);
        }
        lemma_unlisted_entry_has_no_results(items.drop_last(), path, computed);
    }
}

/// The verdicts on an entry are the verdicts on the records of its name, in
/// the order of the records.
pub proof fn lemma_entry_results_by_filter(
    items: Seq<ManifestItemView>,
    path: Seq<char>,
    computed: Seq<char>,
)
    ensures
        entry_results(items, path, computed) == items.filter(
            |item: ManifestItemView| item.name == path,
        ).map_values(|item: ManifestItemView| judge(item, computed)),
    decreases items.len(),
{
    reveal(Seq::filter);
    let named = |item: ManifestItemView| item.name == path;
    let judged = |item: ManifestItemView| judge(item, computed);
    if items.len() > 0 {
        lemma_entry_results_by_filter(items.drop_last(), path, computed);
        let before = items.drop_last().filter(named);
        if named(items.last()) {
            assert(before.push(items.last()).map_values(judged) =~= before.map_values(judged).push(
                judge(items.last(), computed),
            ));
        }
    } else {
        assert(items.filter(named).map_values(judged) =~= Seq::<VerificationResultView>::empty());
    }
}

/// The verdict follows the digest: a record passes on an entry exactly
/// when the digest of the entry's bytes is the checksum that the record
/// declares, and fails otherwise.
pub proof fn lemma_verdict_follows_digest(item: ManifestItemView, data: Seq<u8>)
    ensures
        judge(item, sha1_hex(data)).outcome == Outcome::Passed <==> sha1_hex(data)
            == item.checksum,
        judge(item, sha1_hex(data)).outcome == Outcome::Failed <==> sha1_hex(data)
            != item.checksum,
{
}

/// An archive of one entry, verified against the one record of its name,
/// yields the verdict on that pair. The entry passes when its bytes hash to
/// the checksum of the record, and altered so that its digest is another,
/// it fails.
pub proof fn lemma_altered_entry_fails(
    item: ManifestItemView,
    entry: ArchiveEntryView,
    altered: Seq<u8>,
)
    requires
        item.name == entry.path,
    ensures
        archive_results(seq![item], seq![entry]) == seq![judge(item, sha1_hex(entry.data))],
        sha1_hex(entry.data) == item.checksum ==> judge(item, sha1_hex(entry.data)).outcome
            == Outcome::Passed,
        sha1_hex(entry.data) == item.checksum && sha1_hex(altered) != sha1_hex(entry.data)
            ==> judge(item, sha1_hex(altered)).outcome == Outcome::Failed,
{
    let items = seq![item];
    let computed = sha1_hex(entry.data);
    assert(items.last() == item);
    assert(items.drop_last() =~= Seq::<ManifestItemView>::empty());
    assert(entry_results(items.drop_last(), entry.path, computed) =~= Seq::<
        VerificationResultView,
    >::empty());
    assert(entry_results(items, entry.path, computed) =~= seq![judge(item, computed)]);
    assert(seq![entry].last() == entry);
    assert(seq![entry].drop_last() =~= Seq::<ArchiveEntryView>::empty());
    assert(archive_results(items, seq![entry].drop_last()) =~= Seq::<
        VerificationResultView,
    >::empty());
    assert(archive_results(items, seq![entry]) =~= entry_results(items, entry.path, computed));
}

/// Without records there are no verdicts, whatever the archive holds.
pub proof fn lemma_no_records_no_results(entries: Seq<ArchiveEntryView>)
    ensures
        archive_results(Seq::empty(), entries) == Seq::<VerificationResultView>::empty(),
    decreases entries.len(),
{
    if entries.len() > 0 {
        lemma_no_records_no_results(entries.drop_last());
        assert(archive_results(Seq::empty(), entries) =~= Seq::<VerificationResultView>::empty());
    }
}

/// An archive in which no path ends in `.mf` yields the empty manifest and
/// no verdict.
pub proof fn lemma_archive_without_manifest(entries: Seq<ArchiveEntryView>)
    requires
        forall|i: int| 0 <= i < entries.len() ==> !has_manifest_suffix((#[trigger] entries[i]).path),
    ensures
        find_manifest_spec(entries) == Ok::<ManifestView, VerifyErrorView>(ManifestView::empty()),
        archive_results(ManifestView::empty().contents, entries) == Seq::<
            VerificationResultView,
        >::empty(),
        unmatched(ManifestView::empty().contents, paths_of(entries)) == Seq::<
            ManifestItemView,
        >::empty(),
    decreases entries.len(),
{
    lemma_no_records_no_results(entries);
    if entries.len() > 0 {
        assert forall|i: int| 0 <= i < entries.drop_last().len() implies !has_manifest_suffix(
            (#[trigger] entries.drop_last()[i]).path,
        ) by {
            assert(entries.drop_last()[i] == entries[i]);
        }
        lemma_archive_without_manifest(entries.drop_last());
        assert(entries.last() == entries[entries.len() - 1]);
    }
}

/// Every verdict on an archive is the verdict on one record and one entry
/// of the record's name; a record that no entry is named after is in none.
pub proof fn lemma_results_come_from_pairs(
    items: Seq<ManifestItemView>,
    entries: Seq<ArchiveEntryView>,
    j: int,
)
    requires
        0 <= j < archive_results(items, entries).len(),
    ensures
        exists|i: int, k: int|
            0 <= i < items.len() && 0 <= k < entries.len() && items[i].name == entries[k].path
                && archive_results(items, entries)[j] == judge(
                #[trigger] items[i],
                sha1_hex((#[trigger] entries[k]).data),
            ),
    decreases entries.len(),
{
    let before = archive_results(items, entries.drop_last());
    let k = entries.len() - 1;
    if j < before.len() {
        lemma_results_come_from_pairs(items, entries.drop_last(), j);
        let (i0, k0) = choose|i: int, k: int|
            0 <= i < items.len() && 0 <= k < entries.drop_last().len() && items[i].name
                == entries.drop_last()[k].path && before[j] == judge(
                #[trigger] items[i],
                sha1_hex((#[trigger] entries.drop_last()[k]).data),
            );
        assert(entries.drop_last()[k0] == entries[k0]);
        assert(items[i0].name == entries[k0].path && archive_results(items, entries)[j] == judge(
            items[i0],
            sha1_hex(entries[k0].data),
        ));
    } else {
        let computed = sha1_hex(entries[k].data);
        let i0 = lemma_entry_result_comes_from_record(
            items,
            entries[k].path,
            computed,
            j - before.len(),
        );
        assert(items[i0].name == entries[k].path && archive_results(items, entries)[j] == judge(
            items[i0],
            sha1_hex(entries[k].data),
        ));
    }
}

/// Every record named `path` has its verdict among those on the entry at
/// `path`.
pub proof fn lemma_record_has_entry_result(
    items: Seq<ManifestItemView>,
    path: Seq<char>,
    computed: Seq<char>,
    i: int,
) -> (j: int)
    requires
        0 <= i < items.len(),
        items[i].name == path,
    ensures
        0 <= j < entry_results(items, path, computed).len(),
        entry_results(items, path, computed)[j] == judge(items[i], computed),
    decreases items.len(),
{
    let before = entry_results(items.drop_last(), path, computed);
    if i == items.len() - 1 {
        before.len() as int
    } else {
        let j = lemma_record_has_entry_result(items.drop_last(), path, computed, i);
        assert(items.drop_last()[i] == items[i]);
        j
    }
}

/// Every record and every entry of the record's name have their verdict
/// among those on the archive.
pub proof fn lemma_pair_has_result(
    items: Seq<ManifestItemView>,
    entries: Seq<ArchiveEntryView>,
    i: int,
    k: int,
) -> (j: int)
    requires
        0 <= i < items.len(),
        0 <= k < entries.len(),
        items[i].name == entries[k].path,
    ensures
        0 <= j < archive_results(items, entries).len(),
        archive_results(items, entries)[j] == judge(items[i], sha1_hex(entries[k].data)),
    decreases entries.len(),
{
    let before = archive_results(items, entries.drop_last());
    if k == entries.len() - 1 {
        let j = lemma_record_has_entry_result(
            items,
            entries[k].path,
            sha1_hex(entries[k].data),
            i,
        );
        before.len() + j
    } else {
        let j = lemma_pair_has_result(items, entries.drop_last(), i, k);
        assert(entries.drop_last()[k] == entries[k]);
        j
    }
}

/// Every verdict on an entry is the verdict on a record of the entry's
/// name.
pub proof fn lemma_entry_result_comes_from_record(
    items: Seq<ManifestItemView>,
    path: Seq<char>,
    computed: Seq<char>,
    j: int,
) -> (i: int)
    requires
        0 <= j < entry_results(items, path, computed).len(),
    ensures
        0 <= i < items.len(),
        items[i].name == path,
        entry_results(items, path, computed)[j] == judge(items[i], computed),
    decreases items.len(),
{
    let before = entry_results(items.drop_last(), path, computed);
    if j < before.len() {
        let i = lemma_entry_result_comes_from_record(items.drop_last(), path, computed, j);
        assert(items.drop_last()[i] == items[i]);
        i
    } else {
        items.len() - 1
    }
}

/// Every record of the manifest that the first pass hands back is well
/// formed.
pub proof fn lemma_found_manifest_well_formed(entries: Seq<ArchiveEntryView>)
    requires
        find_manifest_spec(entries) is Ok,
    ensures
        find_manifest_spec(entries)->Ok_0.well_formed(),
    decreases entries.len(),
{
    if entries.len() > 0 {
        if has_manifest_suffix(entries.last().path) {
            lemma_parsed_items_well_formed(lines_of(decode_utf8(entries.last().data)));
        } else {
            lemma_found_manifest_well_formed(entries.drop_last());
        }
    }
}

/// A manifest that the first pass hands back has no path exactly when no
/// entry of the archive ends in `.mf`: the empty path tells the caller that
/// the archive holds no manifest.
pub proof fn lemma_manifest_missing_iff_no_manifest_entry(entries: Seq<ArchiveEntryView>)
    requires
        find_manifest_spec(entries) is Ok,
    ensures
        find_manifest_spec(entries)->Ok_0.name.len() == 0 <==> forall|i: int|
            0 <= i < entries.len() ==> !has_manifest_suffix((#[trigger] entries[i]).path),
    decreases entries.len(),
{
    if entries.len() > 0 {
        let before = entries.drop_last();
        assert(entries.last() == entries[entries.len() - 1]);
        if has_manifest_suffix(entries.last().path) {
        } else {
            lemma_manifest_missing_iff_no_manifest_entry(before);
            if forall|i: int| 0 <= i < before.len() ==> !has_manifest_suffix(
                (#[trigger] before[i]).path,
            ) {
                assert forall|i: int| 0 <= i < entries.len() implies !has_manifest_suffix(
                    (#[trigger] entries[i]).path,
                ) by {
                    if i < before.len() {
                        assert(before[i] == entries[i]);
                    }
                }
            } else {
                let i = choose|i: int|
                    0 <= i < before.len() && has_manifest_suffix((#[trigger] before[i]).path);
                assert(before[i] == entries[i]);
            }
        }
    }
}

/// A record is among the unmatched ones exactly when none of the paths is
/// its name.
pub proof fn lemma_unmatched_iff_not_named(
    items: Seq<ManifestItemView>,
    paths: Seq<Seq<char>>,
    i: int,
)
    requires
        0 <= i < items.len(),
    ensures
        unmatched(items, paths).contains(items[i]) <==> !paths.contains(items[i].name),
    decreases items.len(),
{
    let before = unmatched(items.drop_last(), paths);
    let last = items.last();
    if i < items.len() - 1 {
        lemma_unmatched_iff_not_named(items.drop_last(), paths, i);
        assert(items.drop_last()[i] == items[i]);
        if paths.contains(last.name) {
        } else {
            if before.contains(items[i]) {
                let k = choose|k: int| 0 <= k < before.len() && before[k] == items[i];
                assert(before.push(last)[k] == items[i]);
            }
            if before.push(last).contains(items[i]) && !before.contains(items[i]) {
                let k = choose|k: int|
                    0 <= k < before.push(last).len() && before.push(last)[k] == items[i];
                assert(k == before.len());
            }
        }
    } else {
        if paths.contains(last.name) {
            if before.contains(last) {
                lemma_unmatched_are_not_named(items.drop_last(), paths, last);
            }
        } else {
            assert(before.push(last)[before.len() as int] == last);
        }
    }
}

/// None of the paths is the name of an unmatched record.
pub proof fn lemma_unmatched_are_not_named(
    items: Seq<ManifestItemView>,
    paths: Seq<Seq<char>>,
    item: ManifestItemView,
)
    requires
        unmatched(items, paths).contains(item),
    ensures
        items.contains(item),
        !paths.contains(item.name),
    decreases items.len(),
{
    if items.len() > 0 {
        let before = unmatched(items.drop_last(), paths);
        let last = items.last();
        let k = choose|k: int|
            0 <= k < unmatched(items, paths).len() && unmatched(items, paths)[k] == item;
        if !paths.contains(last.name) && k == before.len() {
            assert(items[items.len() - 1] == item);
        } else {
            assert(before[k] == item);
            lemma_unmatched_are_not_named(items.drop_last(), paths, item);
            let j = choose|j: int| 0 <= j < items.drop_last().len() && items.drop_last()[j] == item;
            assert(items[j] == item);
        }
    }
}

/// Whether `path` names a manifest entry.
pub fn is_manifest_path(path: &str) -> (r: bool)
    ensures
        r == has_manifest_suffix(path@),
{
    let chars = to_chars(path);
    let n = chars.len();
    n >= 3 && chars[n - 3] == '.' && chars[n - 2] == 'm' && chars[n - 1] == 'f'
}

/// Whether `name` is one of `paths`.
fn is_among(paths: &Vec<String>, name: &String) -> (r: bool)
    ensures
        r == paths_view(paths@).contains(name@),
{
    let mut i: usize = 0;
    while i < paths.len()
        invariant
            i <= paths.len(),
            forall|k: int| 0 <= k < i ==> #[trigger] paths_view(paths@)[k] != name@,
        decreases paths.len() - i,
    {
        if paths[i] == *name {
            assert(paths_view(paths@)[i as int] == name@);
            return true;
        }
        i += 1;
    }
    false
}

impl Manifest {
    /// Whether no manifest was found: the manifest has no path.
    pub fn is_missing(&self) -> (r: bool)
        ensures
            r == (self@.name.len() == 0),
    {
        self.name.as_str().is_empty()
    }

    /// The records that none of `paths` names, in the order of the
    /// manifest. With the paths of all the entries of the archive, these are
    /// the records that were not verified.
    pub fn unmatched(&self, paths: &Vec<String>) -> (records: Vec<ManifestItem>)
        ensures
            items_view(records@) == unmatched(self@.contents, paths_view(paths@)),
    {
        let mut records: Vec<ManifestItem> = Vec::new();
        let mut i: usize = 0;
        assert(items_view(records@) =~= Seq::<ManifestItemView>::empty());
        while i < self.contents.len()
            invariant
                i <= self.contents.len(),
                items_view(records@) == unmatched(
                    self@.contents.take(i as int),
                    paths_view(paths@),
                ),
            decreases self.contents.len() - i,
        {
            let item = &self.contents[i];
            let ghost before = items_view(records@);
            proof {
                let upto = self@.contents.take(i + 1);
                assert(upto.drop_last() =~= self@.contents.take(i as int));
                assert(upto.last() == item@);
            }
            if !is_among(paths, &item.name) {
                let copy = item.duplicate();
                records.push(copy);
                assert(items_view(records@) =~= before.push(item@));
            }
            i += 1;
        }
        assert(self@.contents.take(i as int) =~= self@.contents);
        records
    }

    /// Whether some record is named `path`, so that the entry at `path` is
    /// to be digested.
    pub fn lists(&self, path: &str) -> (r: bool)
        ensures
            r == lists(self@.contents, path@),
    {
        let wanted = path.to_owned();
        let mut i: usize = 0;
        while i < self.contents.len()
            invariant
                i <= self.contents.len(),
                wanted@ == path@,
                forall|k: int| 0 <= k < i ==> (#[trigger] self@.contents[k]).name != path@,
            decreases self.contents.len() - i,
        {
            if self.contents[i].name == wanted {
                assert(self@.contents[i as int].name == path@);
                return true;
            }
            i += 1;
        }
        false
    }

    /// Judges the entry at `path`, whose digest is `computed`, against
    /// every record named `path`.
    pub fn check_entry(&self, path: &str, computed: &str) -> (results: Vec<VerificationResult>)
        ensures
            results_view(results@) == entry_results(self@.contents, path@, computed@),
            forall|j: int|
                0 <= j < results.len() ==> (#[trigger] results[j]).computed_checksum@ == computed@,
    {
        let wanted = path.to_owned();
        let digest = computed.to_owned();
        let mut results: Vec<VerificationResult> = Vec::new();
        let mut i: usize = 0;
        assert(results_view(results@) =~= Seq::<VerificationResultView>::empty());
        while i < self.contents.len()
            invariant
                i <= self.contents.len(),
                wanted@ == path@,
                digest@ == computed@,
                results_view(results@) == entry_results(
                    self@.contents.take(i as int),
                    path@,
                    computed@,
                ),
                forall|j: int|
                    0 <= j < results.len() ==> (#[trigger] results[j]).computed_checksum@
                        == computed@,
            decreases self.contents.len() - i,
        {
            let item = &self.contents[i];
            let ghost before = results_view(results@);
            proof {
                let upto = self@.contents.take(i + 1);
                assert(upto.drop_last() =~= self@.contents.take(i as int));
                assert(upto.last() == item@);
            }
            if item.name == wanted {
                let outcome = if item.checksum == digest {
                    Outcome::Passed
                } else {
                    Outcome::Failed
                };
                let result = VerificationResult {
                    record_name: item.name.clone(),
                    algorithm: item.checksum_type.duplicate(),
                    computed_checksum: digest.clone(),
                    outcome,
                };
                assert(result@ == judge(item@, computed@));
                results.push(result);
                assert(results_view(results@) =~= before.push(result@));
            }
            i += 1;
        }
        assert(self@.contents.take(i as int) =~= self@.contents);
        results
    }

    /// Digests `entry`, reading `chunk_size` bytes at a time, and judges it
    /// against every record of its name. An entry that no record names is
    /// not digested. The verdicts do not depend on `chunk_size`.
    ///
    /// The digest is SHA-1 whatever algorithm the record declares: a record
    /// with another tag is judged against the SHA-1 digest all the same.
    pub fn verify_entry(&self, entry: &ArchiveEntry, chunk_size: usize) -> (results: Vec<
        VerificationResult,
    >)
        requires
            entry.data.len() <= MAX_MESSAGE_LEN,
        ensures
            results_view(results@) == entry_results(
                self@.contents,
                entry@.path,
                sha1_hex(entry@.data),
            ),
            carry_digests(results@),
    {
        if self.lists(entry.path.as_str()) {
            let computed = sha1_hex_chunked(entry.data.as_slice(), chunk_size);
            self.check_entry(entry.path.as_str(), computed.as_str())
        } else {
            proof {
                lemma_unlisted_entry_has_no_results(
                    self@.contents,
                    entry@.path,
                    sha1_hex(entry@.data),
                );
            }
            let results: Vec<VerificationResult> = Vec::new();
            assert(results_view(results@) =~= Seq::<VerificationResultView>::empty());
            results
        }
    }

    /// The second pass: every entry that a record names is digested and
    /// judged, entry by entry.
    pub fn verify_entries(&self, entries: &Vec<ArchiveEntry>) -> (results: Vec<VerificationResult>)
        requires
            forall|i: int| 0 <= i < entries.len() ==> (#[trigger] entries[i]).data.len()
                <= MAX_MESSAGE_LEN,
        ensures
            results_view(results@) == archive_results(self@.contents, entries_view(entries@)),
            carry_digests(results@),
    {
        let mut results: Vec<VerificationResult> = Vec::new();
        let mut i: usize = 0;
        assert(results_view(results@) =~= Seq::<VerificationResultView>::empty());
        while i < entries.len()
            invariant
                i <= entries.len(),
                forall|k: int| 0 <= k < entries.len() ==> (#[trigger] entries[k]).data.len()
                    <= MAX_MESSAGE_LEN,
                results_view(results@) == archive_results(
                    self@.contents,
                    entries_view(entries@).take(i as int),
                ),
                carry_digests(results@),
            decreases entries.len() - i,
        {
            let ghost before = results_view(results@);
            let mut found = self.verify_entry(&entries[i], BUFFER_SIZE);
            let ghost added = results_view(found@);
            proof {
                let upto = entries_view(entries@).take(i + 1);
                assert(upto.drop_last() =~= entries_view(entries@).take(i as int));
                assert(upto.last() == entries[i as int]@);
            }
            results.append(&mut found);
            assert(results_view(results@) =~= before + added);
            i += 1;
        }
        assert(entries_view(entries@).take(i as int) =~= entries_view(entries@));
        results
    }
}

/// Reads the manifest out of its entry.
pub fn read_manifest(entry: &ArchiveEntry) -> (r: Result<Manifest, VerifyError>)
    ensures
        match read_manifest_spec(entry@) {
            Ok(m) => r matches Ok(got) && got@ == m,
            Err(e) => r matches Err(err) && err@ == e,
        },
{
    match utf8_text(entry.data.as_slice()) {
        None => Err(VerifyError::UnreadableManifest(entry.path.clone())),
        Some(text) => {
            proof {
                encode_utf8_decode_utf8(text@);
            }
            match Manifest::load(entry.path.as_str(), text) {
                Ok(m) => Ok(m),
                Err(e) => Err(VerifyError::Manifest(e)),
            }
        },
    }
}

/// The first pass: finds the manifest among the entries and parses it.
///
/// Where several entries end in `.mf`, the last one is the manifest, and
/// each of them must be readable; where none does, the manifest is empty.
pub fn find_manifest(entries: &Vec<ArchiveEntry>) -> (r: Result<Manifest, VerifyError>)
    ensures
        match find_manifest_spec(entries_view(entries@)) {
            Ok(m) => r matches Ok(got) && got@ == m,
            Err(e) => r matches Err(err) && err@ == e,
        },
{
    let mut manifest = Manifest::empty();
    let mut i: usize = 0;
    while i < entries.len()
        invariant
            i <= entries.len(),
            find_manifest_spec(entries_view(entries@).take(i as int)) == Ok::<
                ManifestView,
                VerifyErrorView,
            >(manifest@),
        decreases entries.len() - i,
    {
        proof {
            let upto = entries_view(entries@).take(i + 1);
            assert(upto.drop_last() =~= entries_view(entries@).take(i as int));
            assert(upto.last() == entries[i as int]@);
        }
        if is_manifest_path(entries[i].path.as_str()) {
            match read_manifest(&entries[i]) {
                Ok(m) => {
                    manifest = m;
                },
                Err(e) => {
                    proof {
                        lemma_first_failure_stands(entries_view(entries@), i + 1);
                    }
                    return Err(e);
                },
            }
        }
        i += 1;
    }
    assert(entries_view(entries@).take(i as int) =~= entries_view(entries@));
    Ok(manifest)
}

/// Once the first pass has failed on a prefix of the entries, it fails in
/// the same way on all of them.
pub proof fn lemma_first_failure_stands(entries: Seq<ArchiveEntryView>, k: int)
    requires
        0 <= k <= entries.len(),
        find_manifest_spec(entries.take(k)) is Err,
    ensures
        find_manifest_spec(entries) == find_manifest_spec(entries.take(k)),
    decreases entries.len() - k,
{
    if k < entries.len() {
        assert(entries.take(k + 1).drop_last() =~= entries.take(k));
        lemma_first_failure_stands(entries, k + 1);
    } else {
        assert(entries.take(k) =~= entries);
    }
}

/// The paths of the entries.
fn entry_paths(entries: &Vec<ArchiveEntry>) -> (paths: Vec<String>)
    ensures
        paths_view(paths@) == paths_of(entries_view(entries@)),
{
    let mut paths: Vec<String> = Vec::new();
    let mut i: usize = 0;
    while i < entries.len()
        invariant
            i <= entries.len(),
            paths.len() == i,
            forall|k: int| 0 <= k < i ==> (#[trigger] paths[k])@ == entries[k].path@,
        decreases entries.len() - i,
    {
        paths.push(entries[i].path.clone());
        i += 1;
    }
    assert(paths_view(paths@) =~= paths_of(entries_view(entries@)));
    paths
}

/// What verifying the archive `entries` yields, given that the first pass
/// found the manifest `m`.
pub open spec fn is_report(report: Report, m: ManifestView, entries: Seq<ArchiveEntryView>) -> bool {
    &&& report.manifest@ == m
    &&& report.manifest@.well_formed()
    &&& results_view(report.results@) == archive_results(m.contents, entries)
    &&& carry_digests(report.results@)
    &&& items_view(report.unverified@) == unmatched(m.contents, paths_of(entries))
}

/// Verifies an archive whose entries are at hand: finds and parses the
/// manifest, then digests and judges every entry that a record names.
///
/// An archive without a manifest is no failure: it yields the empty
/// manifest and no verdict. A record that no entry is named after is no
/// failure either: it has no verdict and is listed as unverified.
pub fn verify_archive(entries: &Vec<ArchiveEntry>) -> (r: Result<Report, VerifyError>)
    requires
        forall|i: int| 0 <= i < entries.len() ==> (#[trigger] entries[i]).data.len()
            <= MAX_MESSAGE_LEN,
    ensures
        match find_manifest_spec(entries_view(entries@)) {
            Ok(m) => r matches Ok(report) && is_report(report, m, entries_view(entries@)),
            Err(e) => r matches Err(err) && err@ == e,
        },
{
    match find_manifest(entries) {
        Ok(manifest) => {
            proof {
                lemma_found_manifest_well_formed(entries_view(entries@));
            }
            let results = manifest.verify_entries(entries);
            let paths = entry_paths(entries);
            let unverified = manifest.unmatched(&paths);
            Ok(Report { manifest, results, unverified })
        },
        Err(e) => Err(e),
    }
}

} // verus!
