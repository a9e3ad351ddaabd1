//! The checksum manifest: one record per line, `ALGORITHM(name)= hexdigest`.

use crate::roundtrip::{
    lemma_parse_render, lemma_parsed_item_well_formed, lemma_parsed_items_well_formed,
};
use crate::text::{
    find, find_char, is_blank, is_lower_hex, is_space, lemma_find, lemma_find_skip,
    lemma_trimmed_take, lowered, lowered_range, run_start, scan_back, scan_forward, to_chars,
    trimmed, CharClass,
};
use vstd::prelude::*;

verus! {

/// The hash algorithm that a manifest record declares.
#[derive(Clone, Debug, PartialEq, Eq)]
pub enum ChecksumType {
    SHA1,
    /// Any other tag, kept as it was written.
    Unrecognized(String),
}

/// The mathematical value of a [`ChecksumType`].
pub enum ChecksumTypeView {
    SHA1,
    Unrecognized(Seq<char>),
}

/// One verification obligation: the file `name` is declared to have the
/// digest `checksum` under the algorithm `checksum_type`.
#[derive(Clone, Debug, PartialEq, Eq)]
pub struct ManifestItem {
    pub name: String,
    pub checksum_type: ChecksumType,
    pub checksum: String,
}

/// The mathematical value of a [`ManifestItem`].
pub struct ManifestItemView {
    pub name: Seq<char>,
    pub checksum_type: ChecksumTypeView,
    pub checksum: Seq<char>,
}

/// The parsed manifest of one archive. It is built once, from the text of
/// the manifest entry, and only read afterwards.
#[derive(Clone, Debug, PartialEq, Eq)]
pub struct Manifest {
    /// The path of the manifest entry within the archive; empty where the
    /// archive holds none.
    pub name: String,
    /// The records, in the order of the manifest's lines.
    pub contents: Vec<ManifestItem>,
}

/// The mathematical value of a [`Manifest`].
pub struct ManifestView {
    pub name: Seq<char>,
    pub contents: Seq<ManifestItemView>,
}

/// Why a manifest could not be parsed.
#[derive(Clone, Debug, PartialEq, Eq)]
pub enum ParseError {
    /// A line that is not of the form `ALGORITHM(name)= hexdigest`; the
    /// line is carried along for diagnostics.
    MalformedManifestLine(String),
}

/// The tag that stands for SHA-1 in a manifest.
pub open spec fn sha1_tag() -> Seq<char> {
    seq!['S', 'H', 'A', '1']
}

/// The algorithm that a tag declares.
pub open spec fn checksum_type_of(tag: Seq<char>) -> ChecksumTypeView {
    if tag == sha1_tag() {
        ChecksumTypeView::SHA1
    } else {
        ChecksumTypeView::Unrecognized(tag)
    }
}

impl ChecksumTypeView {
    /// The tag under which the algorithm is written in a manifest.
    pub open spec fn tag(self) -> Seq<char> {
        match self {
            ChecksumTypeView::SHA1 => sha1_tag(),
            ChecksumTypeView::Unrecognized(tag) => tag,
        }
    }
}

impl View for ChecksumType {
    type V = ChecksumTypeView;

    open spec fn view(&self) -> ChecksumTypeView {
        match self {
            ChecksumType::SHA1 => ChecksumTypeView::SHA1,
            ChecksumType::Unrecognized(tag) => ChecksumTypeView::Unrecognized(tag@),
        }
    }
}

impl View for ManifestItem {
    type V = ManifestItemView;

    open spec fn view(&self) -> ManifestItemView {
        ManifestItemView {
            name: self.name@,
            checksum_type: self.checksum_type@,
            checksum: self.checksum@,
        }
    }
}

impl View for Manifest {
    type V = ManifestView;

    open spec fn view(&self) -> ManifestView {
        ManifestView { name: self.name@, contents: items_view(self.contents@) }
    }
}

impl ManifestItemView {
    /// What holds of every record that the parser yields: the name and the
    /// checksum are not empty, the checksum is made of hex digits in lower
    /// case, the tag holds no `(` and neither begins nor ends with white
    /// space, and the tag `SHA1` is never kept as an unrecognized one.
    pub open spec fn well_formed(self) -> bool {
        let tag = self.checksum_type.tag();
        &&& self.name.len() > 0
        &&& self.checksum.len() > 0
        &&& is_lower_hex(self.checksum)
        &&& forall|i: int| 0 <= i < tag.len() ==> #[trigger] tag[i] != '('
        &&& tag.len() > 0 ==> !is_space(tag[0]) && !is_space(tag[tag.len() - 1])
        &&& self.checksum_type is Unrecognized ==> tag != sha1_tag()
    }
}

impl ManifestItem {
    /// Whether the record is one that the parser could have yielded.
    pub open spec fn well_formed(&self) -> bool {
        self@.well_formed()
    }
}

impl ManifestView {
    /// Whether every record is well formed.
    pub open spec fn well_formed(self) -> bool {
        forall|i: int| 0 <= i < self.contents.len() ==> (#[trigger] self.contents[i]).well_formed()
    }

    /// The manifest of an archive that holds none: no path, no records.
    pub open spec fn empty() -> ManifestView {
        ManifestView { name: Seq::empty(), contents: Seq::empty() }
    }
}

/// What a manifest line means: the record it declares, or `None` where the
/// line is malformed.
///
/// The algorithm tag is what precedes the first `(`, trimmed. The checksum is
/// the run of hex digits at the end of the line, trailing white space aside;
/// it is written in either case and kept in lower case. Before the checksum
/// stands a separator of white space and `=`, and before that the `)` that
/// closes the name. The name is everything between the first `(` and that
/// `)`, parentheses included.
pub open spec fn parse_line_spec(line: Seq<char>) -> Option<ManifestItemView> {
    let open = find(line, '(', 0);
    let end = run_start(line, line.len() as int, CharClass::Space);
    let hex = run_start(line, end, CharClass::HexDigit);
    let close = run_start(line, hex, CharClass::Separator) - 1;
    if open < line.len() && hex < end && open + 1 < close && line[close] == ')' {
        Some(
            ManifestItemView {
                name: line.subrange(open + 1, close),
                checksum_type: checksum_type_of(trimmed(line.take(open))),
                checksum: lowered(line.subrange(hex, end)),
            },
        )
    } else {
        None
    }
}

/// The line that declares `item` in the usual spelling,
/// `TAG(name)= checksum`.
pub open spec fn render_line(item: ManifestItemView) -> Seq<char> {
    item.checksum_type.tag() + seq!['('] + item.name + seq![')', '=', ' '] + item.checksum
}

/// Whether `r` is the outcome that the grammar prescribes for `line`.
pub open spec fn is_line_outcome(r: Result<ManifestItem, ParseError>, line: Seq<char>) -> bool {
    match parse_line_spec(line) {
        Some(item) => r matches Ok(got) && got@ == item,
        None => r matches Err(ParseError::MalformedManifestLine(text)) && text@ == line,
    }
}

impl ChecksumType {
    /// The algorithm that the characters `from..to` of `line` declare.
    fn from_tag(line: &str, chars: &Vec<char>, from: usize, to: usize) -> (r: ChecksumType)
        requires
            chars@ == line@,
            from <= to <= chars.len(),
        ensures
            r@ == checksum_type_of(line@.subrange(from as int, to as int)),
    {
        let ghost tag = line@.subrange(from as int, to as int);
        if to - from == 4 && chars[from] == 'S' && chars[from + 1] == 'H' && chars[from + 2] == 'A'
            && chars[from + 3] == '1' {
            assert(tag =~= sha1_tag());
            ChecksumType::SHA1
        } else {
            assert(tag != sha1_tag()) by {
                if tag == sha1_tag() {
                    assert(tag.len() == 4);
                    assert(tag[0] == 'S' && tag[1] == 'H' && tag[2] == 'A' && tag[3] == '1');
                }
            }
            ChecksumType::Unrecognized(line.substring_char(from, to).to_owned())
        }
    }
}

/// Parses a line whose characters have been laid out in `chars`.
fn parse_chars(line: &str, chars: &Vec<char>) -> (r: Result<ManifestItem, ParseError>)
    requires
        chars@ == line@,
    ensures
        is_line_outcome(r, line@),
        r matches Ok(item) ==> item.well_formed(),
{
    proof {
        if parse_line_spec(line@) is Some {
            lemma_parsed_item_well_formed(line@);
        }
    }
    let n = chars.len();
    let open = find_char(chars, '(', 0);
    let end = scan_back(chars, n, CharClass::Space);
    let hex = scan_back(chars, end, CharClass::HexDigit);
    let sep = scan_back(chars, hex, CharClass::Separator);
    if open >= n || hex >= end || sep < 3 || sep - 3 < open || chars[sep - 1] != ')' {
        return Err(ParseError::MalformedManifestLine(line.to_owned()));
    }
    let tag_end = scan_back(chars, open, CharClass::Space);
    let tag_start = scan_forward(chars, 0, tag_end, CharClass::Space);
    proof {
        lemma_trimmed_take(line@, open as int);
    }
    Ok(
        ManifestItem {
            name: line.substring_char(open + 1, sep - 1).to_owned(),
            checksum_type: ChecksumType::from_tag(line, chars, tag_start, tag_end),
            checksum: lowered_range(line, chars, hex, end),
        },
    )
}

/// Parses one manifest line.
///
/// Succeeds exactly on the lines to which the grammar gives a meaning, with
/// the record it prescribes; any other line comes back inside the error.
pub fn parse_line(line: &str) -> (r: Result<ManifestItem, ParseError>)
    ensures
        is_line_outcome(r, line@),
        r matches Ok(item) ==> item.well_formed(),
{
    let chars = to_chars(line);
    parse_chars(line, &chars)
}

/// The lines of `text`: the pieces between its line feeds, the one after the
/// last line feed included.
pub open spec fn lines_of(text: Seq<char>) -> Seq<Seq<char>>
    decreases text.len(),
{
    let end = find(text, '\n', 0);
    if 0 <= end < text.len() {
        seq![text.take(end)] + lines_of(text.skip(end + 1))
    } else {
        seq![text]
    }
}

/// What a list of lines means: blank lines are passed over, every other
/// line must parse, and the first that does not is the error.
pub open spec fn parse_lines_spec(lines: Seq<Seq<char>>) -> Result<
    Seq<ManifestItemView>,
    Seq<char>,
>
    decreases lines.len(),
{
    if lines.len() == 0 {
        Ok(Seq::empty())
    } else if is_blank(lines[0]) {
        parse_lines_spec(lines.drop_first())
    } else {
        match parse_line_spec(lines[0]) {
            None => Err(lines[0]),
            Some(item) => prepend(seq![item], parse_lines_spec(lines.drop_first())),
        }
    }
}

/// The records `done`, followed by what `rest` yields.
pub open spec fn prepend(
    done: Seq<ManifestItemView>,
    rest: Result<Seq<ManifestItemView>, Seq<char>>,
) -> Result<Seq<ManifestItemView>, Seq<char>> {
    match rest {
        Ok(items) => Ok(done + items),
        Err(line) => Err(line),
    }
}

/// What a manifest text means: its records in the order of its lines, or
/// the first malformed line.
pub open spec fn parse_mf_spec(text: Seq<char>) -> Result<Seq<ManifestItemView>, Seq<char>> {
    parse_lines_spec(lines_of(text))
}

/// The mathematical values of a list of records.
pub open spec fn items_view(items: Seq<ManifestItem>) -> Seq<ManifestItemView> {
    items.map_values(|item: ManifestItem| item@)
}

/// Whether `r` is the outcome that the grammar prescribes for `text`.
pub open spec fn is_manifest_outcome(
    r: Result<Vec<ManifestItem>, ParseError>,
    text: Seq<char>,
) -> bool {
    match parse_mf_spec(text) {
        Ok(items) => r matches Ok(got) && items_view(got@) == items,
        Err(line) => r matches Err(ParseError::MalformedManifestLine(bad)) && bad@ == line,
    }
}

/// The lines of a suffix of `text`, told by where its first line ends.
proof fn lemma_lines_of_suffix(text: Seq<char>, pos: int, end: int)
    requires
        0 <= pos <= text.len(),
        end == find(text, '\n', pos),
    ensures
        pos <= end <= text.len(),
        lines_of(text.skip(pos))[0] == text.subrange(pos, end),
        end < text.len() ==> lines_of(text.skip(pos)).drop_first() == lines_of(
            text.skip(end + 1),
        ),
        end == text.len() ==> lines_of(text.skip(pos)).drop_first() == Seq::<
            Seq<char>,
        >::empty(),
{
    let rest = text.skip(pos);
    lemma_find(text, '\n', pos);
    lemma_find_skip(text, '\n', pos, 0);
    assert(find(rest, '\n', 0) == end - pos);
    if end < text.len() {
        assert(rest.take(end - pos) =~= text.subrange(pos, end));
        assert(rest.skip(end - pos + 1) =~= text.skip(end + 1));
        assert(lines_of(rest).drop_first() =~= lines_of(text.skip(end + 1)));
    } else {
        assert(rest =~= text.subrange(pos, end));
        assert(lines_of(rest).drop_first() =~= Seq::<Seq<char>>::empty());
    }
}

/// Parses the text of a manifest.
fn parse_text(text: &str) -> (r: Result<Vec<ManifestItem>, ParseError>)
    ensures
        is_manifest_outcome(r, text@),
        r matches Ok(items) ==> forall|i: int|
            0 <= i < items.len() ==> (#[trigger] items[i]).well_formed(),
{
    let chars = to_chars(text);
    let n = chars.len();
    let mut items: Vec<ManifestItem> = Vec::new();
    let mut pos: usize = 0;
    assert(text@.skip(0) =~= text@);
    loop
        invariant
            chars@ == text@,
            n == chars.len(),
            pos <= n,
            parse_mf_spec(text@) == prepend(
                items_view(items@),
                parse_lines_spec(lines_of(text@.skip(pos as int))),
            ),
        decreases n - pos,
    {
        let end = find_char(&chars, '\n', pos);
        let line = text.substring_char(pos, end);
        let line_chars = to_chars(line);
        let ghost lines = lines_of(text@.skip(pos as int));
        let ghost done = items_view(items@);
        proof {
            lemma_lines_of_suffix(text@, pos as int, end as int);
            assert(lines.len() > 0);
        }
        if scan_back(&line_chars, line_chars.len(), CharClass::Space) != 0 {
            match parse_chars(line, &line_chars) {
                Err(e) => {
                    return Err(e);
                },
                Ok(item) => {
                    items.push(item);
                    assert(items_view(items@) =~= done + seq![item@]);
                    assert(forall|rest: Seq<ManifestItemView>|
                        done + (seq![item@] + rest) =~= #[trigger] ((done + seq![item@]) + rest));
                },
            }
        }
        if end >= n {
            assert(parse_lines_spec(lines.drop_first()) == Ok::<
                Seq<ManifestItemView>,
                Seq<char>,
            >(Seq::empty()));
            assert(items_view(items@) + Seq::<ManifestItemView>::empty() =~= items_view(items@));
            assert(parse_lines_spec(lines_of(text@)) == Ok::<Seq<ManifestItemView>, Seq<char>>(
                items_view(items@),
            ));
            assert forall|i: int| 0 <= i < items.len() implies (#[trigger] items[i]).well_formed() by {
                lemma_parsed_items_well_formed(lines_of(text@));
                assert(items[i]@ == (parse_lines_spec(lines_of(text@))->Ok_0)[i]);
            }
            return Ok(items);
        }
        pos = end + 1;
    }
}

/// Parses the text of a manifest into its records, in the order of its
/// lines.
///
/// Lines end at a line feed; lines that hold only white space are passed
/// over. The first line that is malformed fails the whole manifest.
pub fn parse_mf(mf_contents: String) -> (r: Result<Vec<ManifestItem>, ParseError>)
    ensures
        is_manifest_outcome(r, mf_contents@),
        r matches Ok(items) ==> forall|i: int|
            0 <= i < items.len() ==> (#[trigger] items[i]).well_formed(),
{
    parse_text(mf_contents.as_str())
}

/// What loading the manifest entry `name` with the text `text` gives.
pub open spec fn load_spec(name: Seq<char>, text: Seq<char>) -> Result<ManifestView, Seq<char>> {
    match parse_mf_spec(text) {
        Ok(items) => Ok(ManifestView { name, contents: items }),
        Err(line) => Err(line),
    }
}

impl Manifest {
    /// The manifest of an archive that holds none.
    pub fn empty() -> (m: Manifest)
        ensures
            m@ == ManifestView::empty(),
    {
        let m = Manifest { name: String::new(), contents: Vec::new() };
        assert(items_view(m.contents@) =~= Seq::<ManifestItemView>::empty());
        m
    }

    /// Builds the manifest from the path and the text of the manifest
    /// entry. A malformed line fails the whole manifest.
    pub fn load(name: &str, text: &str) -> (r: Result<Manifest, ParseError>)
        ensures
            match load_spec(name@, text@) {
                Ok(m) => r matches Ok(got) && got@ == m,
                Err(line) => r matches Err(ParseError::MalformedManifestLine(bad)) && bad@ == line,
            },
            r matches Ok(got) ==> got@.well_formed(),
    {
        match parse_text(text) {
            Ok(contents) => Ok(Manifest { name: name.to_owned(), contents }),
            Err(e) => Err(e),
        }
    }
}

impl ChecksumType {
    /// The tag under which the algorithm is written in a manifest.
    pub fn tag(&self) -> (tag: String)
        ensures
            tag@ == self@.tag(),
    {
        match self {
            ChecksumType::SHA1 => {
                proof {
                    reveal_strlit("SHA1");
                }
                let tag = "SHA1".to_owned();
                assert(tag@ =~= sha1_tag());
                tag
            },
            ChecksumType::Unrecognized(tag) => tag.clone(),
        }
    }

    /// A copy of the algorithm.
    pub fn duplicate(&self) -> (r: ChecksumType)
        ensures
            r@ == self@,
    {
        match self {
            ChecksumType::SHA1 => ChecksumType::SHA1,
            ChecksumType::Unrecognized(tag) => ChecksumType::Unrecognized(tag.clone()),
        }
    }
}

impl ManifestItem {
    /// The manifest line that declares this record, `TAG(name)= checksum`.
    /// Parsing it gives the record back, provided the record is well formed.
    pub fn render(&self) -> (line: String)
        ensures
            line@ == render_line(self@),
            self.well_formed() ==> parse_line_spec(line@) == Some(self@),
    {
        let mut line = self.checksum_type.tag();
        proof {
            reveal_strlit("(");
            reveal_strlit(")= ");
            if self.well_formed() {
                lemma_parse_render(self@);
            }
        }
        line.append("(");
        line.append(self.name.as_str());
        line.append(")= ");
        line.append(self.checksum.as_str());
        assert(line@ =~= render_line(self@));
        line
    }

    /// A copy of the record.
    pub fn duplicate(&self) -> (r: ManifestItem)
        ensures
            r@ == self@,
    {
        ManifestItem {
            name: self.name.clone(),
            checksum_type: self.checksum_type.duplicate(),
            checksum: self.checksum.clone(),
        }
    }
}

} // verus!
