//! What the line grammar amounts to: a line parses to a record exactly when
//! it spells the record out, and so parsing undoes rendering.

use crate::manifest::{
    checksum_type_of, parse_line_spec, parse_lines_spec, render_line, sha1_tag, ManifestItemView,
};
use crate::text::{
    all_of, find, is_blank, is_lower_hex, is_space, lemma_find, lemma_find_is, lemma_run_end,
    lemma_run_end_is, lemma_run_start, lemma_run_start_is, lemma_trimmed_take, lower_hex, lowered,
    run_end, run_start, CharClass,
};
use vstd::prelude::*;

verus! {

/// How a record is spelled out on a line, beyond what the record itself
/// holds.
pub struct Spelling {
    /// The white space before the tag.
    pub lead: Seq<char>,
    /// The white space between the tag and the `(`.
    pub gap: Seq<char>,
    /// The separator between the `)` and the checksum.
    pub sep: Seq<char>,
    /// The checksum as written, in either case.
    pub hex: Seq<char>,
    /// The white space at the end of the line.
    pub trail: Seq<char>,
}

impl Spelling {
    /// Whether this is a way to spell `item`: white space where white space
    /// belongs, a separator of white space and `=`, and the checksum of
    /// `item` in either case.
    pub open spec fn fits(self, item: ManifestItemView) -> bool {
        &&& all_of(self.lead, CharClass::Space)
        &&& all_of(self.gap, CharClass::Space)
        &&& all_of(self.sep, CharClass::Separator)
        &&& all_of(self.trail, CharClass::Space)
        &&& lowered(self.hex) == item.checksum
    }

    /// The usual spelling of `item`: no white space, `= ` as the
    /// separator, the checksum as the record holds it.
    pub open spec fn usual(item: ManifestItemView) -> Spelling {
        Spelling {
            lead: Seq::empty(),
            gap: Seq::empty(),
            sep: seq!['=', ' '],
            hex: item.checksum,
            trail: Seq::empty(),
        }
    }
}

/// The line that declares `item`, spelled as `how` says.
pub open spec fn written_line(item: ManifestItemView, how: Spelling) -> Seq<char> {
    how.lead + item.checksum_type.tag() + how.gap + seq!['('] + item.name + seq![')'] + how.sep
        + how.hex + how.trail
}

/// Lowering leaves a checksum in lower case as it is.
pub proof fn lemma_lowered_lower_hex(s: Seq<char>)
    requires
        is_lower_hex(s),
    ensures
        lowered(s) == s,
{
    assert(lowered(s) =~= s);
}

/// Every record that a line parses to is well formed.
pub proof fn lemma_parsed_item_well_formed(line: Seq<char>)
    requires
        parse_line_spec(line) is Some,
    ensures
        parse_line_spec(line).unwrap().well_formed(),
{
    let how = lemma_parsed_line_is_written(line);
}

/// Every record of a manifest that parses is well formed.
pub proof fn lemma_parsed_items_well_formed(lines: Seq<Seq<char>>)
    requires
        parse_lines_spec(lines) is Ok,
    ensures
        forall|i: int|
            0 <= i < parse_lines_spec(lines)->Ok_0.len() ==> (#[trigger] parse_lines_spec(
                lines,
            )->Ok_0[i]).well_formed(),
    decreases lines.len(),
{
    if lines.len() > 0 {
        let rest = lines.drop_first();
        if is_blank(lines[0]) {
            lemma_parsed_items_well_formed(rest);
        } else {
            lemma_parsed_item_well_formed(lines[0]);
            lemma_parsed_items_well_formed(rest);
            let item = parse_line_spec(lines[0]).unwrap();
            let items = parse_lines_spec(lines)->Ok_0;
            assert(items == seq![item] + parse_lines_spec(rest)->Ok_0);
            assert forall|i: int| 0 <= i < items.len() implies (#[trigger] items[i]).well_formed() by {
                if i > 0 {
                    assert(items[i] == parse_lines_spec(rest)->Ok_0[i - 1]);
                }
            }
        }
    }
}

/// A line that spells out a well-formed record parses to that record,
/// whatever the white space around the tag and at the end, whatever the
/// separator, and whatever the case of the checksum.
pub proof fn lemma_parse_written_line(item: ManifestItemView, how: Spelling)
    requires
        item.well_formed(),
        how.fits(item),
    ensures
        parse_line_spec(written_line(item, how)) == Some(item),
{
    let tag = item.checksum_type.tag();
    let line = written_line(item, how);
    let p0 = how.lead.len() as int;
    let p1 = p0 + tag.len();
    let p2 = p1 + how.gap.len();
    let p3 = p2 + 1;
    let p4 = p3 + item.name.len();
    let p5 = p4 + 1;
    let p6 = p5 + how.sep.len();
    let p7 = p6 + how.hex.len();
    let p8 = p7 + how.trail.len();
    assert(how.hex.len() == item.checksum.len());
    assert(line.len() == p8);
    assert forall|i: int| 0 <= i < p0 implies #[trigger] line[i] == how.lead[i] by {}
    assert forall|i: int| p0 <= i < p1 implies #[trigger] line[i] == tag[i - p0] by {}
    assert forall|i: int| p1 <= i < p2 implies #[trigger] line[i] == how.gap[i - p1] by {}
    assert(line[p2] == '(');
    assert forall|i: int| p3 <= i < p4 implies #[trigger] line[i] == item.name[i - p3] by {}
    assert(line[p4] == ')');
    assert forall|i: int| p5 <= i < p6 implies #[trigger] line[i] == how.sep[i - p5] by {}
    assert forall|i: int| p6 <= i < p7 implies #[trigger] line[i] == how.hex[i - p6] by {}
    assert forall|i: int| p7 <= i < p8 implies #[trigger] line[i] == how.trail[i - p7] by {}
    assert forall|i: int| 0 <= i < how.hex.len() implies CharClass::HexDigit.has(
        #[trigger] how.hex[i],
    ) by {
        assert(item.checksum[i] == lower_hex(how.hex[i]));
    }

    // The first `(` is the one written after the tag.
    assert forall|i: int| 0 <= i < p2 implies #[trigger] line[i] != '(' by {
        if i < p0 {
            assert(CharClass::Space.has(how.lead[i]));
        } else if i < p1 {
            assert(tag[i - p0] != '(');
        } else {
            assert(CharClass::Space.has(how.gap[i - p1]));
        }
    }
    lemma_find_is(line, '(', 0, p2);

    // From the end: white space, then the checksum, then the separator.
    assert forall|i: int| p7 <= i < p8 implies CharClass::Space.has(#[trigger] line[i]) by {
        assert(CharClass::Space.has(how.trail[i - p7]));
    }
    assert(CharClass::HexDigit.has(how.hex[how.hex.len() - 1]));
    assert(line[p7 - 1] == how.hex[how.hex.len() - 1]);
    lemma_run_start_is(line, p8, CharClass::Space, p7);
    assert forall|i: int| p6 <= i < p7 implies CharClass::HexDigit.has(#[trigger] line[i]) by {
        assert(CharClass::HexDigit.has(how.hex[i - p6]));
    }
    if how.sep.len() > 0 {
        assert(CharClass::Separator.has(how.sep[how.sep.len() - 1]));
        assert(line[p6 - 1] == how.sep[how.sep.len() - 1]);
    }
    lemma_run_start_is(line, p7, CharClass::HexDigit, p6);
    assert forall|i: int| p5 <= i < p6 implies CharClass::Separator.has(#[trigger] line[i]) by {
        assert(CharClass::Separator.has(how.sep[i - p5]));
    }
    lemma_run_start_is(line, p6, CharClass::Separator, p5);

    // The tag, with the white space around it set aside.
    let tag_end = if tag.len() > 0 { p1 } else { 0 };
    let tag_start = if tag.len() > 0 { p0 } else { 0 };
    assert forall|i: int| tag_end <= i < p2 implies CharClass::Space.has(#[trigger] line[i]) by {
        if i < p0 {
            assert(CharClass::Space.has(how.lead[i]));
        } else {
            assert(CharClass::Space.has(how.gap[i - p1]));
        }
    }
    if tag.len() > 0 {
        assert(line[p1 - 1] == tag[tag.len() - 1]);
        assert(line[p0] == tag[0]);
    }
    lemma_run_start_is(line, p2, CharClass::Space, tag_end);
    assert forall|i: int| 0 <= i < tag_start implies CharClass::Space.has(#[trigger] line[i]) by {
        assert(CharClass::Space.has(how.lead[i]));
    }
    lemma_run_end_is(line, 0, tag_end, CharClass::Space, tag_start);
    lemma_trimmed_take(line, p2);

    assert(line.subrange(p3, p4) =~= item.name);
    assert(line.subrange(p6, p7) =~= how.hex);
    assert(line.subrange(tag_start, tag_end) =~= tag);
    assert(checksum_type_of(tag) == item.checksum_type);
}

/// A line that parses spells out the record it parses to, and that record
/// is well formed. The spelling is handed back.
pub proof fn lemma_parsed_line_is_written(line: Seq<char>) -> (how: Spelling)
    requires
        parse_line_spec(line) is Some,
    ensures
        parse_line_spec(line).unwrap().well_formed(),
        how.fits(parse_line_spec(line).unwrap()),
        line == written_line(parse_line_spec(line).unwrap(), how),
{
    let item = parse_line_spec(line).unwrap();
    let open = find(line, '(', 0);
    lemma_find(line, '(', 0);
    let end = run_start(line, line.len() as int, CharClass::Space);
    lemma_run_start(line, line.len() as int, CharClass::Space);
    let hex = run_start(line, end, CharClass::HexDigit);
    lemma_run_start(line, end, CharClass::HexDigit);
    let sep = run_start(line, hex, CharClass::Separator);
    lemma_run_start(line, hex, CharClass::Separator);
    let tag_end = run_start(line, open, CharClass::Space);
    lemma_run_start(line, open, CharClass::Space);
    let tag_start = run_end(line, 0, tag_end, CharClass::Space);
    lemma_run_end(line, 0, tag_end, CharClass::Space);
    let tag = line.subrange(tag_start, tag_end);
    lemma_trimmed_take(line, open);
    let how = Spelling {
        lead: line.subrange(0, tag_start),
        gap: line.subrange(tag_end, open),
        sep: line.subrange(sep, hex),
        hex: line.subrange(hex, end),
        trail: line.subrange(end, line.len() as int),
    };
    assert(item.checksum_type == checksum_type_of(tag));
    assert(item.checksum_type.tag() == tag);
    assert(item.name.len() > 0);
    assert(item.checksum.len() > 0);
    assert(is_lower_hex(item.checksum)) by {
        assert forall|i: int| 0 <= i < item.checksum.len() implies crate::text::is_lower_hex_digit(
            #[trigger] item.checksum[i],
        ) by {
            assert(item.checksum[i] == lower_hex(line[hex + i]));
            assert(CharClass::HexDigit.has(line[hex + i]));
        }
    }
    assert forall|i: int| 0 <= i < tag.len() implies #[trigger] tag[i] != '(' by {
        assert(tag[i] == line[tag_start + i]);
    }
    if tag.len() > 0 {
        assert(tag[0] == line[tag_start]);
        assert(tag[tag.len() - 1] == line[tag_end - 1]);
        assert(!is_space(tag[0]));
        assert(!is_space(tag[tag.len() - 1]));
    }
    assert(item.checksum_type is Unrecognized ==> tag != sha1_tag());
    assert(all_of(how.lead, CharClass::Space)) by {
        assert forall|i: int| 0 <= i < how.lead.len() implies CharClass::Space.has(
            #[trigger] how.lead[i],
        ) by {
            assert(how.lead[i] == line[i]);
        }
    }
    assert(all_of(how.gap, CharClass::Space)) by {
        assert forall|i: int| 0 <= i < how.gap.len() implies CharClass::Space.has(
            #[trigger] how.gap[i],
        ) by {
            assert(how.gap[i] == line[tag_end + i]);
        }
    }
    assert(all_of(how.sep, CharClass::Separator)) by {
        assert forall|i: int| 0 <= i < how.sep.len() implies CharClass::Separator.has(
            #[trigger] how.sep[i],
        ) by {
            assert(how.sep[i] == line[sep + i]);
        }
    }
    assert(all_of(how.trail, CharClass::Space)) by {
        assert forall|i: int| 0 <= i < how.trail.len() implies CharClass::Space.has(
            #[trigger] how.trail[i],
        ) by {
            assert(how.trail[i] == line[end + i]);
        }
    }
    assert(line =~= written_line(item, how));
    how
}

/// The grammar in one sentence: a line parses to a record exactly when
/// the record is well formed and the line spells it out.
pub proof fn lemma_parses_iff_written(line: Seq<char>, item: ManifestItemView)
    ensures
        parse_line_spec(line) == Some(item) <==> item.well_formed() && exists|how: Spelling|
            how.fits(item) && line == #[trigger] written_line(item, how),
{
    if parse_line_spec(line) == Some(item) {
        let how = lemma_parsed_line_is_written(line);
        assert(how.fits(item) && line == written_line(item, how));
    }
    if item.well_formed() && exists|how: Spelling|
        how.fits(item) && line == #[trigger] written_line(item, how) {
        let how = choose|how: Spelling|
            how.fits(item) && line == #[trigger] written_line(item, how);
        lemma_parse_written_line(item, how);
    }
}

/// Parsing undoes rendering: the rendered line of a well-formed record
/// parses to that record.
pub proof fn lemma_parse_render(item: ManifestItemView)
    requires
        item.well_formed(),
    ensures
        parse_line_spec(render_line(item)) == Some(item),
{
    let how = Spelling::usual(item);
    lemma_lowered_lower_hex(item.checksum);
    assert(render_line(item) =~= written_line(item, how));
    lemma_parse_written_line(item, how);
}

/// Parsing, rendering and parsing again gives what parsing gave: the
/// record of a line that parses is the record of its own rendering.
pub proof fn lemma_render_parsed(line: Seq<char>)
    requires
        parse_line_spec(line) is Some,
    ensures
        parse_line_spec(render_line(parse_line_spec(line).unwrap())) == parse_line_spec(line),
{
    lemma_parsed_item_well_formed(line);
    lemma_parse_render(parse_line_spec(line).unwrap());
}

/// A line without `(` is malformed.
pub proof fn lemma_line_without_open_paren(line: Seq<char>)
    requires
        forall|i: int| 0 <= i < line.len() ==> #[trigger] line[i] != '(',
    ensures
        parse_line_spec(line) is None,
{
    lemma_find_is(line, '(', 0, line.len() as int);
}

/// One malformed line fails the whole manifest: where a line that is not
/// blank does not parse, no list of records comes out.
pub proof fn lemma_malformed_line_fails_manifest(lines: Seq<Seq<char>>, k: int)
    requires
        0 <= k < lines.len(),
        !is_blank(lines[k]),
        parse_line_spec(lines[k]) is None,
    ensures
        parse_lines_spec(lines) is Err,
    decreases k,
{
    if k > 0 {
        assert(lines.drop_first()[k - 1] == lines[k]);
        lemma_malformed_line_fails_manifest(lines.drop_first(), k - 1);
    }
}

} // verus!
