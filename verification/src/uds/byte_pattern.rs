//! Byte/bit layout of a PDU: one row per parameter showing its byte offset,
//! bit range, hex and binary value and name.
use vstd::prelude::*;

use crate::sort::{stable_sort, Precedes, is_stable_sort_of};
use crate::text::{
    binary, binary_padded, decimal, fill, fill_string, hex, hex_padded, pad_left, repeat,
    repeat_str, u64_to_decimal,
};
use crate::tree::types::{
    cells_view, CellJumpTarget, CellJumpTargetType, CellType, CellV, ColumnConstraint, DetailCell,
    DetailContent, DetailRow, DetailRowType, DetailSectionData, DetailSectionType, JumpV,
    MetadataV, RowMetadata, RowV, rows_view, BIT_POSITION_UNSET,
};

verus! {

broadcast use vstd::std_specs::vec::group_vec_axioms;

/// Extracted byte-field info from a single parameter.
#[derive(Clone, Debug)]
pub struct ByteField {
    pub byte_pos: u32,
    pub bit_pos: u32,
    pub bit_length: Option<u32>,
    pub name: String,
    pub type_label: &'static str,
    pub coded_value: Option<u64>,
    pub param_id: u32,
}

/// `a * b`, or `u32::MAX` when that does not fit.
pub open spec fn sat_mul(a: u32, b: u32) -> u32 {
    if a * b > u32::MAX {
        u32::MAX
    } else {
        (a * b) as u32
    }
}

fn saturating_mul(a: u32, b: u32) -> (r: u32)
    ensures
        r == sat_mul(a, b),
{
    match a.checked_mul(b) {
        Some(v) => v,
        None => u32::MAX,
    }
}

/// The bit position, with the "unset" sentinel read as bit 0.
pub open spec fn spec_effective_bit_pos(bit_pos: u32) -> u32 {
    if bit_pos == BIT_POSITION_UNSET {
        0
    } else {
        bit_pos
    }
}

/// Number of bytes a field spans (rounded up); 1 if its length is unknown.
pub open spec fn spec_byte_span(f: ByteField) -> u32 {
    match f.bit_length {
        None => 1,
        Some(bl) => (spec_effective_bit_pos(f.bit_pos).saturating_add(bl).saturating_add(7) / 8)
            as u32,
    }
}

impl ByteField {
    /// Number of bytes this field spans (rounded up). Returns 1 if unknown.
    pub fn byte_span(&self) -> (r: u32)
        ensures
            r == spec_byte_span(*self),
    {
        match self.bit_length {
            None => 1,
            Some(bl) => {
                let effective_start = effective_bit_pos(self.bit_pos);
                effective_start.saturating_add(bl).saturating_add(7) / 8
            },
        }
    }
}

/// The bit position, with the "unset" sentinel read as bit 0.
pub fn effective_bit_pos(bit_pos: u32) -> (r: u32)
    ensures
        r == spec_effective_bit_pos(bit_pos),
{
    if bit_pos == BIT_POSITION_UNSET {
        0
    } else {
        bit_pos
    }
}

/// The byte offset column: `"5"`, `"1-2"` for a field spanning bytes 1..=2,
/// or `"3..n"` for a variable-length field (no bit length) starting at byte 3.
pub open spec fn spec_format_offset(f: ByteField) -> Seq<char> {
    let span = spec_byte_span(f);
    if f.bit_length is None {
        decimal(f.byte_pos as nat) + "..n"@
    } else if span <= 1 {
        decimal(f.byte_pos as nat)
    } else {
        let end = f.byte_pos.saturating_add(span).saturating_sub(1);
        decimal(f.byte_pos as nat) + "-"@ + decimal(end as nat)
    }
}

/// The bit range column: `"[7:0]"`, `"[7]"`, `"[15:0]"`, or empty for a
/// zero-length field.
pub open spec fn spec_format_bit_range(f: ByteField) -> Seq<char> {
    let start = spec_effective_bit_pos(f.bit_pos);
    match f.bit_length {
        None => if start == 0 {
            "[7:0]"@
        } else {
            "["@ + decimal(start as nat) + "]"@
        },
        Some(bl) => if bl == 0 {
            Seq::empty()
        } else {
            let end = start.saturating_add(bl).saturating_sub(1);
            if end == start {
                "["@ + decimal(start as nat) + "]"@
            } else {
                "["@ + decimal(end as nat) + ":"@ + decimal(start as nat) + "]"@
            }
        },
    }
}

/// Number of hex digits a coded value is padded to for a field of `bl` bits:
/// whole bytes up to 4 (at least one byte); no padding beyond 4 bytes.
pub open spec fn hex_width(bit_length: Option<u32>) -> nat {
    match bit_length {
        None => 2,
        Some(bl) => {
            let bytes = bl.saturating_add(7) / 8;
            if bytes <= 1 {
                2
            } else if bytes <= 4 {
                (2 * bytes) as nat
            } else {
                0
            }
        },
    }
}

/// The hex column: `"0x22"` for coded constants, `"??"` per byte otherwise.
pub open spec fn spec_format_hex(f: ByteField) -> Seq<char> {
    match f.coded_value {
        None => repeat("??"@, spec_byte_span(f) as nat),
        Some(val) => "0x"@ + pad_left(hex(val as nat), '0', hex_width(f.bit_length)),
    }
}

/// `s` with a space inserted before every character whose position is a
/// positive multiple of 4.
pub open spec fn group_by_four(s: Seq<char>) -> Seq<char>
    decreases s.len(),
{
    if s.len() == 0 {
        s
    } else {
        let i = s.len() - 1;
        group_by_four(s.drop_last()) + (if i > 0 && i % 4 == 0 {
            seq![' ']
        } else {
            Seq::empty()
        }) + seq![s.last()]
    }
}

/// The binary column: the value in binary, zero-padded to the bit length (8
/// when unknown) and grouped by four digits; `'?'` per bit when the value is
/// not constant.
pub open spec fn spec_format_binary(f: ByteField) -> Seq<char> {
    let bl = match f.bit_length {
        Some(b) => b,
        None => 8,
    };
    match f.coded_value {
        None => fill('?', bl as nat),
        Some(val) => group_by_four(pad_left(binary(val as nat), '0', bl as nat)),
    }
}

/// Format the byte offset column: `"0"`, `"1-2"`, or `"3..n"` for
/// variable-length fields.
pub fn format_offset(f: &ByteField) -> (r: String)
    ensures
        r@ == spec_format_offset(*f),
{
    let span = f.byte_span();
    if f.bit_length.is_none() {
        let mut r = u64_to_decimal(f.byte_pos as u64);
        r.append("..n");
        r
    } else if span <= 1 {
        u64_to_decimal(f.byte_pos as u64)
    } else {
        let end = f.byte_pos.saturating_add(span).saturating_sub(1);
        let mut r = u64_to_decimal(f.byte_pos as u64);
        r.append("-");
        let e = u64_to_decimal(end as u64);
        r.append(e.as_str());
        r
    }
}

/// Format the bit range: `"[7:0]"`, `"[7]"`, `"[15:0]"`, etc.
pub fn format_bit_range(f: &ByteField) -> (r: String)
    ensures
        r@ == spec_format_bit_range(*f),
{
    let start_bit = effective_bit_pos(f.bit_pos);
    match f.bit_length {
        None => {
            if start_bit == 0 {
                "[7:0]".to_owned()
            } else {
                let mut r = "[".to_owned();
                let d = u64_to_decimal(start_bit as u64);
                r.append(d.as_str());
                r.append("]");
                r
            }
        },
        Some(bl) => {
            if bl == 0 {
                return String::new();
            }
            let end_bit = start_bit.saturating_add(bl).saturating_sub(1);
            let mut r = "[".to_owned();
            if end_bit == start_bit {
                let d = u64_to_decimal(start_bit as u64);
                r.append(d.as_str());
            } else {
                let e = u64_to_decimal(end_bit as u64);
                r.append(e.as_str());
                r.append(":");
                let d = u64_to_decimal(start_bit as u64);
                r.append(d.as_str());
            }
            r.append("]");
            r
        },
    }
}

/// The bit range column of a field starting at bit `start` (the unset
/// sentinel reads as bit 0): a field of `bl` >= 2 bits shows
/// `"[start+bl-1:start]"`, with the last bit it covers as the high bound and
/// its own start bit as the low bound; a single bit shows `"[start]"`; a
/// zero-length field shows nothing; a field of unknown length shows
/// `"[7:0]"` at bit 0 and `"[start]"` elsewhere.
pub proof fn law_bit_range_bounds(f: ByteField)
    requires
        f.bit_length is Some ==> (if f.bit_pos == BIT_POSITION_UNSET { 0 } else { f.bit_pos })
            + f.bit_length->0 <= u32::MAX,
    ensures
        ({
            let start: nat = (if f.bit_pos == BIT_POSITION_UNSET { 0 } else { f.bit_pos }) as nat;
            match f.bit_length {
                Some(bl) => {
                    &&& bl == 0 ==> spec_format_bit_range(f) == Seq::<char>::empty()
                    &&& bl == 1 ==> spec_format_bit_range(f) == "["@ + decimal(start) + "]"@
                    &&& bl >= 2 ==> spec_format_bit_range(f) == "["@ + decimal((start + bl - 1) as nat)
                        + ":"@ + decimal(start) + "]"@
                },
                None => {
                    &&& start == 0 ==> spec_format_bit_range(f) == "[7:0]"@
                    &&& start != 0 ==> spec_format_bit_range(f) == "["@ + decimal(start) + "]"@
                },
            }
        }),
{
}

/// Format the hex value: `"0x22"` for coded constants, `"??"` for dynamic.
pub fn format_hex(f: &ByteField) -> (r: String)
    ensures
        r@ == spec_format_hex(*f),
{
    match f.coded_value {
        None => {
            let byte_span = f.byte_span();
            repeat_str("??", byte_span as usize)
        },
        Some(val) => {
            let width: usize = match f.bit_length {
                None => 2,
                Some(bl) => {
                    let bytes = bl.saturating_add(7) / 8;
                    if bytes <= 1 {
                        2
                    } else if bytes <= 4 {
                        (2 * bytes) as usize
                    } else {
                        0
                    }
                },
            };
            let mut r = "0x".to_owned();
            let h = hex_padded(val, width);
            r.append(h.as_str());
            r
        },
    }
}

/// Format the binary representation: `"0010 0010"` for known values,
/// `"????????"` for dynamic.
pub fn format_binary(f: &ByteField) -> (r: String)
    ensures
        r@ == spec_format_binary(*f),
{
    let bl = match f.bit_length {
        Some(b) => b,
        None => 8,
    };
    let val = match f.coded_value {
        None => {
            return fill_string('?', bl as usize);
        },
        Some(v) => v,
    };
    let raw_s = binary_padded(val, bl as usize);
    let raw = crate::text::chars_of(raw_s.as_str());
    let mut spaced = String::new();
    let mut i: usize = 0;
    while i < raw.len()
        invariant
            0 <= i <= raw@.len(),
            spaced@ == group_by_four(raw@.subrange(0, i as int)),
        decreases raw.len() - i,
    {
        if i > 0 && i % 4 == 0 {
            spaced.push(' ');
        }
        spaced.push(raw[i]);
        proof {
            let pre = raw@.subrange(0, i + 1);
            assert(pre.drop_last() =~= raw@.subrange(0, i as int));
            assert(pre.last() == raw@[i as int]);
        }
        i = i + 1;
        proof {
            let pre = raw@.subrange(0, i as int);
            assert(spaced@ =~= group_by_four(pre));
        }
    }
    assert(raw@.subrange(0, raw@.len() as int) =~= raw@);
    spaced
}

/// The row of one field at the given indentation.
pub open spec fn field_row_view(f: ByteField, indent: usize) -> RowV {
    RowV {
        cells: seq![
            CellV { text: spec_format_offset(f), cell_type: CellType::NumericValue, jump_target: None },
            CellV { text: spec_format_bit_range(f), cell_type: CellType::Text, jump_target: None },
            CellV { text: spec_format_hex(f), cell_type: CellType::NumericValue, jump_target: None },
            CellV { text: spec_format_binary(f), cell_type: CellType::Text, jump_target: None },
            CellV {
                text: f.name@,
                cell_type: CellType::ParameterName,
                jump_target: Some(JumpV::Parameter { param_id: f.param_id }),
            },
            CellV { text: f.type_label@, cell_type: CellType::Text, jump_target: None },
        ],
        indent,
        row_type: DetailRowType::Normal,
        metadata: Some(MetadataV::ParameterRow { param_id: f.param_id }),
        diff_status: None,
    }
}

/// Build the detail row of one field.
pub fn build_field_row(f: &ByteField, indent: usize) -> (r: DetailRow)
    ensures
        r@ == field_row_view(*f, indent),
{
    let offset = format_offset(f);
    let bits = format_bit_range(f);
    let hex_text = format_hex(f);
    let bin = format_binary(f);
    let c0 = DetailCell::new(offset.as_str(), CellType::NumericValue);
    let c1 = DetailCell::text(bits.as_str());
    let c2 = DetailCell::new(hex_text.as_str(), CellType::NumericValue);
    let c3 = DetailCell::text(bin.as_str());
    let c4 = DetailCell::new(f.name.as_str(), CellType::ParameterName).with_jump(
        CellJumpTarget::new(CellJumpTargetType::Parameter { param_id: f.param_id }),
    );
    let c5 = DetailCell::text(f.type_label);
    let mut row = DetailRow::normal(vec![c0, c1, c2, c3, c4, c5], indent);
    row.metadata = Some(RowMetadata::ParameterRow { param_id: f.param_id });
    proof {
        assert(cells_view(row.cells@) =~= field_row_view(*f, indent).cells);
    }
    row
}

/// Fields are ordered by byte position, then by effective bit position.
impl Precedes for ByteField {
    open spec fn precedes(&self, other: &Self) -> bool {
        self.byte_pos < other.byte_pos || (self.byte_pos == other.byte_pos
            && spec_effective_bit_pos(self.bit_pos) < spec_effective_bit_pos(other.bit_pos))
    }

    fn precedes_exec(&self, other: &Self) -> (r: bool) {
        self.byte_pos < other.byte_pos || (self.byte_pos == other.byte_pos && effective_bit_pos(
            self.bit_pos,
        ) < effective_bit_pos(other.bit_pos))
    }

    proof fn lemma_transitive(a: &Self, b: &Self, c: &Self) {
    }

    proof fn lemma_equivalent(a: &Self, b: &Self, c: &Self) {
    }

    proof fn lemma_irreflexive(a: &Self) {
    }
}

/// Byte position of the first field after `fs[j..]`-start whose byte position
/// differs from that of `fs[idx]`.
pub open spec fn next_other_byte_pos(fs: Seq<ByteField>, idx: int, j: int) -> Option<u32>
    decreases fs.len() - j,
{
    if j < 0 || j >= fs.len() {
        None
    } else if fs[j].byte_pos != fs[idx].byte_pos {
        Some(fs[j].byte_pos)
    } else {
        next_other_byte_pos(fs, idx, j + 1)
    }
}

/// The bit length of `fs[idx]`, inferred when the database gives none from
/// the gap (in whole bytes) to the next field at another byte position.
pub open spec fn inferred_bit_length(fs: Seq<ByteField>, idx: int) -> Option<u32> {
    match fs[idx].bit_length {
        Some(b) => Some(b),
        None => match next_other_byte_pos(fs, idx, idx + 1) {
            Some(nb) => {
                let span = nb.saturating_sub(fs[idx].byte_pos);
                if span > 0 {
                    Some(sat_mul(span, 8))
                } else {
                    None
                }
            },
            None => None,
        },
    }
}

/// A field shares its byte position with a neighbour (a sub-byte group).
pub open spec fn in_shared_byte(fs: Seq<ByteField>, idx: int) -> bool {
    (idx > 0 && fs[idx - 1].byte_pos == fs[idx].byte_pos) || (idx + 1 < fs.len() && fs[idx
        + 1].byte_pos == fs[idx].byte_pos)
}

/// The rows for fields already in layout order: field `i` with its inferred
/// bit length, indented when other fields share its byte.
pub open spec fn layout_rows(fs: Seq<ByteField>) -> Seq<RowV> {
    Seq::new(
        fs.len(),
        |i: int|
            field_row_view(
                ByteField { bit_length: inferred_bit_length(fs, i), ..fs[i] },
                if in_shared_byte(fs, i) {
                    1
                } else {
                    0
                },
            ),
    )
}

/// Build the byte/bit pattern rows of a PDU's fields: the fields are sorted
/// (stably) by byte position and effective bit position, missing bit lengths
/// are inferred from the gap to the next byte position, and fields that share
/// a byte are indented one level.
pub fn build_byte_pattern_rows(fields: Vec<ByteField>) -> (r: Vec<DetailRow>)
    ensures
        exists|perm: Seq<int>, sorted: Seq<ByteField>|
            is_stable_sort_of(sorted, fields@, perm) && rows_view(r@) == layout_rows(sorted),
{
    let sorted = stable_sort(fields);
    let ghost sorted_v = sorted@;
    let n = sorted.len();
    // Infer the bit length of each field lacking one.
    let mut lens: Vec<Option<u32>> = Vec::new();
    let mut idx: usize = 0;
    while idx < n
        invariant
            n == sorted@.len(),
            0 <= idx <= n,
            lens@.len() == idx,
            forall|k: int| 0 <= k < idx ==> #[trigger] lens@[k] == inferred_bit_length(sorted@, k),
        decreases n - idx,
    {
        let field = &sorted[idx];
        let inferred = match field.bit_length {
            Some(b) => Some(b),
            None => {
                let current = field.byte_pos;
                let mut j = idx + 1;
                while j < n && sorted[j].byte_pos == current
                    invariant
                        n == sorted@.len(),
                        idx < j <= n,
                        current == sorted@[idx as int].byte_pos,
                        next_other_byte_pos(sorted@, idx as int, idx + 1) == next_other_byte_pos(
                            sorted@,
                            idx as int,
                            j as int,
                        ),
                    decreases n - j,
                {
                    j = j + 1;
                }
                if j < n {
                    let span = sorted[j].byte_pos.saturating_sub(current);
                    if span > 0 {
                        Some(saturating_mul(span, 8))
                    } else {
                        None
                    }
                } else {
                    None
                }
            },
        };
        lens.push(inferred);
        idx = idx + 1;
    }
    let mut rows: Vec<DetailRow> = Vec::new();
    let mut i: usize = 0;
    while i < n
        invariant
            n == sorted@.len(),
            lens@.len() == n,
            forall|k: int| 0 <= k < n ==> #[trigger] lens@[k] == inferred_bit_length(sorted@, k),
            0 <= i <= n,
            rows@.len() == i,
            forall|k: int| 0 <= k < i ==> #[trigger] rows@[k]@ == layout_rows(sorted@)[k],
        decreases n - i,
    {
        let f = &sorted[i];
        let shared = (i > 0 && sorted[i - 1].byte_pos == f.byte_pos) || (i + 1 < n && sorted[i
            + 1].byte_pos == f.byte_pos);
        let indent: usize = if shared {
            1
        } else {
            0
        };
        let with_len = ByteField {
            byte_pos: f.byte_pos,
            bit_pos: f.bit_pos,
            bit_length: lens[i],
            name: f.name.clone(),
            type_label: f.type_label,
            coded_value: f.coded_value,
            param_id: f.param_id,
        };
        let row = build_field_row(&with_len, indent);
        proof {
            assert(with_len.name@ == sorted@[i as int].name@);
            assert(field_row_view(with_len, indent) == layout_rows(sorted@)[i as int]);
        }
        rows.push(row);
        i = i + 1;
    }
    proof {
        assert(rows_view(rows@) =~= layout_rows(sorted@));
    }
    rows
}

/// The header row of a byte pattern table.
pub open spec fn byte_pattern_header() -> RowV {
    RowV {
        cells: seq![
            CellV { text: "Offset"@, cell_type: CellType::NumericValue, jump_target: None },
            CellV { text: "Bits"@, cell_type: CellType::Text, jump_target: None },
            CellV { text: "Hex"@, cell_type: CellType::Text, jump_target: None },
            CellV { text: "Binary"@, cell_type: CellType::Text, jump_target: None },
            CellV { text: "Parameter"@, cell_type: CellType::Text, jump_target: None },
            CellV { text: "Type"@, cell_type: CellType::Text, jump_target: None },
        ],
        indent: 0,
        row_type: DetailRowType::Header,
        metadata: None,
        diff_status: None,
    }
}

/// Build a "Byte Pattern" detail section visualising the byte/bit layout of a
/// PDU (request or response).
pub fn build_byte_pattern_section(title: &str, fields: Vec<ByteField>) -> (r: DetailSectionData)
    ensures
        r.title@ == title@,
        !r.render_as_header,
        r.section_type == DetailSectionType::Custom,
        r.byte_pattern_rows is None,
        r.content matches DetailContent::Table { header, rows, constraints, use_row_selection } && {
            &&& header@ == byte_pattern_header()
            &&& use_row_selection
            &&& constraints@ == seq![
                ColumnConstraint::Fixed(8),
                ColumnConstraint::Fixed(7),
                ColumnConstraint::Fixed(8),
                ColumnConstraint::Percentage(20),
                ColumnConstraint::Percentage(40),
                ColumnConstraint::Percentage(15),
            ]
            &&& exists|perm: Seq<int>, sorted: Seq<ByteField>|
                is_stable_sort_of(sorted, fields@, perm) && rows_view(rows@) == layout_rows(sorted)
        },
{
    let rows = build_byte_pattern_rows(fields);
    let header = DetailRow::header(
        vec![
            DetailCell::new("Offset", CellType::NumericValue),
            DetailCell::text("Bits"),
            DetailCell::text("Hex"),
            DetailCell::text("Binary"),
            DetailCell::text("Parameter"),
            DetailCell::text("Type"),
        ],
    );
    proof {
        assert(cells_view(header.cells@) =~= byte_pattern_header().cells);
    }
    let constraints = vec![
        ColumnConstraint::Fixed(8),
        ColumnConstraint::Fixed(7),
        ColumnConstraint::Fixed(8),
        ColumnConstraint::Percentage(20),
        ColumnConstraint::Percentage(40),
        ColumnConstraint::Percentage(15),
    ];
    DetailSectionData {
        title: title.to_owned(),
        render_as_header: false,
        section_type: DetailSectionType::Custom,
        content: DetailContent::Table { header, rows, constraints, use_row_selection: true },
        byte_pattern_rows: None,
    }
}

} // verus!
