//! Small builders of detail rows, cells and labels shared by the element
//! sections: navigation rows, overview tables and value renderings.
use vstd::prelude::*;
use vstd::hash_map::StringHashMap;
use crate::text::{decimal, hex, pad_left, hex_padded, u64_to_decimal};
use crate::tree::types::{
    CellJumpTarget, CellJumpTargetType, CellType, ChildElementType, ColumnConstraint, DetailCell,
    DetailContent, DetailRow, DetailRowType, DetailSectionData, DetailSectionType, JumpV, RowMetadata,
};

verus! {

broadcast use vstd::std_specs::vec::group_vec_axioms;

// Numbers in text
pub open spec fn is_dec_digit(c: char) -> bool {
    '0' <= c <= '9'
}

pub open spec fn all_dec_digits(s: Seq<char>) -> bool {
    forall|i: int| 0 <= i < s.len() ==> is_dec_digit(#[trigger] s[i])
}

/// The value of a string of decimal digits.
pub open spec fn dec_value(s: Seq<char>) -> nat
    decreases s.len(),
{
    if s.len() == 0 {
        0
    } else {
        dec_value(s.drop_last()) * 10 + digit_value(s.last())
    }
}

/// The value of one decimal digit (zero for any other character).
pub open spec fn digit_value(c: char) -> nat {
    if is_dec_digit(c) {
        ((c as int) - ('0' as int)) as nat
    } else {
        0
    }
}

/// What `str::parse::<u64>` gives: an optional `+`, then at least one
/// decimal digit, within range.
pub open spec fn parse_u64(s: Seq<char>) -> Option<u64> {
    let digits = if s.len() > 0 && s[0] == '+' {
        s.drop_first()
    } else {
        s
    };
    if digits.len() > 0 && all_dec_digits(digits) && dec_value(digits) <= u64::MAX {
        Some(dec_value(digits) as u64)
    } else {
        None
    }
}

/// What `str::parse::<i64>` gives: an optional sign, then at least one
/// decimal digit, within range.
pub open spec fn parse_i64(s: Seq<char>) -> Option<i64> {
    let neg = s.len() > 0 && s[0] == '-';
    let digits = if s.len() > 0 && (s[0] == '+' || s[0] == '-') {
        s.drop_first()
    } else {
        s
    };
    if digits.len() > 0 && all_dec_digits(digits) {
        if neg && dec_value(digits) <= 0x8000_0000_0000_0000 {
            Some((-(dec_value(digits) as int)) as i64)
        } else if !neg && dec_value(digits) <= i64::MAX {
            Some(dec_value(digits) as i64)
        } else {
            None
        }
    } else {
        None
    }
}

proof fn lemma_dec_value_step(s: Seq<char>, i: int)
    requires
        0 <= i < s.len(),
    ensures
        dec_value(s.subrange(0, i + 1)) == dec_value(s.subrange(0, i)) * 10 + digit_value(s[i]),
{
    assert(s.subrange(0, i + 1).drop_last() =~= s.subrange(0, i));
    assert(s.subrange(0, i + 1).last() == s[i]);
}

proof fn lemma_dec_value_grows(s: Seq<char>, n: int, m: int)
    requires
        0 <= n <= m <= s.len(),
        all_dec_digits(s),
    ensures
        dec_value(s.subrange(0, n)) <= dec_value(s.subrange(0, m)),
    decreases m - n,
{
    if n < m {
        lemma_dec_value_grows(s, n, m - 1);
        lemma_dec_value_step(s, m - 1);
    }
}

/// The digits after position `start` as a value, `None` when one is not a
/// digit, there are none, or the value passes `limit`.
fn digits_value(s: &Vec<char>, start: usize, limit: u64) -> (r: Option<u64>)
    requires
        start <= s@.len(),
    ensures
        ({
            let d = s@.subrange(start as int, s@.len() as int);
            match r {
                Some(v) => d.len() > 0 && all_dec_digits(d) && v == dec_value(d) && v <= limit,
                None => !(d.len() > 0 && all_dec_digits(d) && dec_value(d) <= limit),
            }
        }),
{
    let ghost d = s@.subrange(start as int, s@.len() as int);
    if start >= s.len() {
        return None;
    }
    let mut value: u64 = 0;
    let mut i = start;
    while i < s.len()
        invariant
            start <= i <= s@.len(),
            start < s@.len(),
            d == s@.subrange(start as int, s@.len() as int),
            value == dec_value(d.subrange(0, i - start)),
            value <= limit,
            forall|k: int| 0 <= k < i - start ==> is_dec_digit(#[trigger] d[k]),
        decreases s.len() - i,
    {
        let c = s[i];
        if !('0' <= c && c <= '9') {
            assert(!is_dec_digit(d[i - start]));
            return None;
        }
        proof {
            lemma_dec_value_step(d, i - start);
            assert(d[i - start] == c);
        }
        let digit = (c as u64) - ('0' as u64);
        assert(digit == digit_value(c));
        if digit > limit || value > (limit - digit) / 10 {
            proof {
                if digit <= limit {
                    assert(value * 10 + digit > limit) by (nonlinear_arith)
                        requires
                            value > (limit - digit) / 10,
                            digit <= limit,
                    ;
                }
                if all_dec_digits(d) {
                    lemma_dec_value_grows(d, i - start + 1, d.len() as int);
                    assert(d.subrange(0, d.len() as int) =~= d);
                }
            }
            return None;
        }
        assert(value * 10 + digit <= limit) by (nonlinear_arith)
            requires
                value <= (limit - digit) / 10,
                digit <= limit,
        ;
        value = value * 10 + digit;
        i = i + 1;
    }
    assert(d.subrange(0, d.len() as int) =~= d);
    Some(value)
}

/// Reads an unsigned decimal number the way `str::parse::<u64>` does.
pub fn parse_u64_exec(s: &str) -> (r: Option<u64>)
    ensures
        r == parse_u64(s@),
{
    let chars = crate::text::chars_of(s);
    let start: usize = if chars.len() > 0 && chars[0] == '+' {
        1
    } else {
        0
    };
    assert(chars@.subrange(start as int, chars@.len() as int) =~= if s@.len() > 0 && s@[0] == '+' {
        s@.drop_first()
    } else {
        s@
    });
    digits_value(&chars, start, u64::MAX)
}

/// Reads a signed decimal number the way `str::parse::<i64>` does.
pub fn parse_i64_exec(s: &str) -> (r: Option<i64>)
    ensures
        r == parse_i64(s@),
{
    let chars = crate::text::chars_of(s);
    let neg = chars.len() > 0 && chars[0] == '-';
    let start: usize = if chars.len() > 0 && (chars[0] == '+' || chars[0] == '-') {
        1
    } else {
        0
    };
    let ghost digits = chars@.subrange(start as int, chars@.len() as int);
    assert(digits =~= if s@.len() > 0 && (s@[0] == '+' || s@[0] == '-') {
        s@.drop_first()
    } else {
        s@
    });
    if neg {
        match digits_value(&chars, start, 0x8000_0000_0000_0000) {
            Some(m) => {
                if m == 0x8000_0000_0000_0000 {
                    Some(i64::MIN)
                } else {
                    Some(-(m as i64))
                }
            },
            None => None,
        }
    } else {
        match digits_value(&chars, start, 0x7FFF_FFFF_FFFF_FFFF) {
            Some(v) => Some(v as i64),
            None => None,
        }
    }
}

/// The hex width of an expected value: 2, 4, 8 or 16 digits.
pub open spec fn expected_width(n: u64) -> nat {
    if n <= 0xFF {
        2
    } else if n <= 0xFFFF {
        4
    } else if n <= 0xFFFF_FFFF {
        8
    } else {
        16
    }
}

/// An expected value as upper-case hex padded to a byte, word, double word
/// or quad word; text that is no number stays as it is.
pub open spec fn expected_value_text(raw: Seq<char>) -> Seq<char> {
    match parse_u64(raw) {
        Some(n) => "0x"@ + pad_left(hex(n as nat), '0', expected_width(n)),
        None => raw,
    }
}

pub fn format_expected_value_as_hex(raw: &str) -> (r: String)
    ensures
        r@ == expected_value_text(raw@),
{
    match parse_u64_exec(raw) {
        Some(n) => {
            let width: usize = if n <= 0xFF {
                2
            } else if n <= 0xFFFF {
                4
            } else if n <= 0xFFFF_FFFF {
                8
            } else {
                16
            };
            let mut r = "0x".to_owned();
            r.append(hex_padded(n, width).as_str());
            r
        },
        None => raw.to_owned(),
    }
}

/// A number as hex (two's complement for negative values) with its decimal
/// value in parentheses, `0xFF (255)`; other text stays as it is.
pub open spec fn hex_decimal_text(value: Seq<char>) -> Seq<char> {
    match parse_i64(value) {
        Some(n) => "0x"@ + hex((if n < 0 {
            n + 0x1_0000_0000_0000_0000
        } else {
            n as int
        }) as nat) + " ("@ + (if n < 0 {
            "-"@ + decimal((-n) as nat)
        } else {
            decimal(n as nat)
        }) + ")"@,
        None => value,
    }
}

pub fn format_value_hex_decimal(value: &str) -> (r: String)
    ensures
        r@ == hex_decimal_text(value@),
{
    match parse_i64_exec(value) {
        Some(n) => {
            let bits: u64 = if n < 0 {
                u64::MAX - ((-(n + 1)) as u64)
            } else {
                n as u64
            };
            let mut r = "0x".to_owned();
            r.append(hex_padded(bits, 0).as_str());
            proof {
                assert(pad_left(hex(bits as nat), '0', 0) == hex(bits as nat));
            }
            r.append(" (");
            if n < 0 {
                let magnitude: u64 = ((-(n + 1)) as u64) + 1;
                r.append("-");
                r.append(u64_to_decimal(magnitude).as_str());
            } else {
                r.append(u64_to_decimal(n as u64).as_str());
            }
            r.append(")");
            r
        },
        None => value.to_owned(),
    }
}

/// The badge of a communication parameter class, `[TIMING] `; nothing for
/// no class, an empty one or `-`.
pub open spec fn class_badge(param_class: Option<Seq<char>>) -> Seq<char> {
    match param_class {
        Some(cls) => if cls.len() > 0 && cls != "-"@ {
            "["@ + cls + "] "@
        } else {
            Seq::empty()
        },
        None => Seq::empty(),
    }
}

pub fn param_class_badge(param_class: Option<&str>) -> (r: String)
    ensures
        r@ == class_badge(match param_class {
            Some(c) => Some(c@),
            None => None,
        }),
{
    match param_class {
        Some(cls) => {
            if !cls.is_empty() && !crate::text::str_eq(cls, "-") {
                let mut r = "[".to_owned();
                r.append(cls);
                r.append("] ");
                r
            } else {
                String::new()
            }
        },
        None => String::new(),
    }
}

/// The label of a diagnostic-data entry: its semantic id, else its text id,
/// else the caption (numbered when several entries have neither).
pub fn sd_entry_label(si: &str, ti: &str, caption: &str, unnamed_idx: &mut usize, unnamed_count: usize) -> (r: String)
    ensures
        si@.len() > 0 ==> r@ == si@ && *final(unnamed_idx) == *old(unnamed_idx),
        si@.len() == 0 && ti@.len() > 0 ==> r@ == ti@ && *final(unnamed_idx) == *old(unnamed_idx),
        si@.len() == 0 && ti@.len() == 0 && unnamed_count > 1 ==> {
            &&& *final(unnamed_idx) == if *old(unnamed_idx) == usize::MAX {
                usize::MAX
            } else {
                (*old(unnamed_idx) + 1) as usize
            }
            &&& r@ == caption@ + " ["@ + decimal(*final(unnamed_idx) as nat) + "]"@
        },
        si@.len() == 0 && ti@.len() == 0 && unnamed_count <= 1 ==> r@ == caption@ && *final(unnamed_idx)
            == *old(unnamed_idx),
{
    if !si.is_empty() {
        si.to_owned()
    } else if !ti.is_empty() {
        ti.to_owned()
    } else if unnamed_count > 1 {
        *unnamed_idx = unnamed_idx.saturating_add(1);
        let mut r = caption.to_owned();
        r.append(" [");
        r.append(crate::text::usize_to_decimal(*unnamed_idx).as_str());
        r.append("]");
        r
    } else {
        caption.to_owned()
    }
}

// Rows
/// A key / value row.
pub fn kv_row(key: &str, value: String) -> (r: DetailRow)
    ensures
        r.cells@.len() == 2,
        r.cells@[0]@.text == key@ && r.cells@[0]@.cell_type == CellType::Text && r.cells@[0]@.jump_target is None,
        r.cells@[1]@.text == value@ && r.cells@[1]@.cell_type == CellType::Text && r.cells@[1]@.jump_target is None,
        r.indent == 0,
        r.row_type == DetailRowType::Normal,
        r.metadata is None,
        r.diff_status is None,
{
    DetailRow::normal(vec![DetailCell::text(key), DetailCell::text(value.as_str())], 0)
}

/// A jump to the node named `short_name`, at its known position (or past
/// the end when it has none yet).
pub fn make_index_jump(short_name: &str, node_indices: &StringHashMap<usize>) -> (r: CellJumpTarget)
    ensures
        r@ == (JumpV::TreeNodeByIndex {
            index: if node_indices@.contains_key(short_name@) {
                node_indices@[short_name@]
            } else {
                usize::MAX
            },
            short_name: short_name@,
        }),
{
    let index = match node_indices.get(short_name) {
        Some(i) => *i,
        None => usize::MAX,
    };
    CellJumpTarget::new(CellJumpTargetType::TreeNodeByIndex { index, short_name: short_name.to_owned() })
}

/// A one-cell row naming a node and leading to it (its position is filled
/// in when the tree is finished).
pub open spec fn named_row(r: DetailRow, name: Seq<char>, cell_type: CellType, jump: JumpV) -> bool {
    &&& r.cells@.len() == 1
    &&& r.cells@[0]@.text == name
    &&& r.cells@[0]@.cell_type == cell_type
    &&& r.cells@[0]@.jump_target == Some(jump)
    &&& r.indent == 0
    &&& r.row_type == DetailRowType::Normal
    &&& r.metadata is None
    &&& r.diff_status is None
}

/// A row leading to a service or job by name.
pub fn make_service_or_job_row(name: &str) -> (r: DetailRow)
    ensures
        named_row(r, name@, CellType::ParameterName, JumpV::TreeNodeByIndex { index: usize::MAX, short_name: name@ }),
{
    make_tree_node_row(name)
}

/// A row leading to a tree node by name.
pub fn make_tree_node_row(name: &str) -> (r: DetailRow)
    ensures
        named_row(r, name@, CellType::ParameterName, JumpV::TreeNodeByIndex { index: usize::MAX, short_name: name@ }),
{
    let cell = DetailCell::new(name, CellType::ParameterName).with_jump(
        CellJumpTarget::new(CellJumpTargetType::TreeNodeByIndex { index: usize::MAX, short_name: name.to_owned() }),
    );
    DetailRow::normal(vec![cell], 0)
}

/// A row leading to a data operation by name.
pub fn make_dop_row(name: &str) -> (r: DetailRow)
    ensures
        named_row(r, name@, CellType::DopReference, JumpV::Dop { index: usize::MAX, name: name@ }),
{
    let dop_name = name.to_owned();
    let cell = DetailCell::new(dop_name.as_str(), CellType::DopReference).with_jump(
        CellJumpTarget::new(CellJumpTargetType::Dop { index: usize::MAX, name: dop_name }),
    );
    DetailRow::normal(vec![cell], 0)
}

/// The overview row of a kind of child list, when the node has one.
pub fn build_child_row(label: &str, value: Option<String>, element_type: ChildElementType) -> (r: Option<DetailRow>)
    ensures
        value is None <==> r is None,
        r matches Some(row) ==> {
            &&& row.cells@.len() == 2
            &&& row.cells@[0]@.text == label@ && row.cells@[0]@.cell_type == CellType::ParameterName
            &&& row.cells@[0]@.jump_target is None
            &&& row.cells@[1]@.text == value->0@ && row.cells@[1]@.cell_type == CellType::Text
            &&& row.cells@[1]@.jump_target is None
            &&& row.indent == 0
            &&& row.row_type == DetailRowType::ChildElement
            &&& row.metadata == Some(RowMetadata::ChildElement { element_type })
            &&& row.diff_status is None
        },
{
    let value = match value {
        Some(v) => v,
        None => {
            return None;
        },
    };
    let mut row = DetailRow::normal(
        vec![DetailCell::new(label, CellType::ParameterName), DetailCell::text(value.as_str())],
        0,
    );
    row.row_type = DetailRowType::ChildElement;
    row.metadata = Some(RowMetadata::ChildElement { element_type });
    Some(row)
}

/// An overview table of names, each leading to its node; nothing for no
/// names.
pub fn build_names_overview_table(names: &Vec<String>, title: &str, node_indices: &StringHashMap<usize>) -> (r: Vec<
    DetailSectionData,
>)
    ensures
        names@.len() == 0 ==> r@.len() == 0,
        names@.len() > 0 ==> {
            &&& r@.len() == 1
            &&& r@[0].title@ == title@
            &&& r@[0].section_type == DetailSectionType::Overview
            &&& !r@[0].render_as_header
            &&& r@[0].byte_pattern_rows is None
            &&& r@[0].content matches DetailContent::Table { header, rows, constraints, use_row_selection } && {
                &&& header.cells@.len() == 1 && header.cells@[0]@.text == "Short Name"@
                &&& header.row_type == DetailRowType::Header
                &&& constraints@ == seq![ColumnConstraint::Percentage(100)]
                &&& use_row_selection
                &&& rows@.len() == names@.len()
                &&& forall|i: int|
                    0 <= i < names@.len() ==> named_row(
                        #[trigger] rows@[i],
                        names@[i]@,
                        CellType::ParameterName,
                        JumpV::TreeNodeByIndex {
                            index: if node_indices@.contains_key(names@[i]@) {
                                node_indices@[names@[i]@]
                            } else {
                                usize::MAX
                            },
                            short_name: names@[i]@,
                        },
                    )
            }
        },
{
    if names.len() == 0 {
        return Vec::new();
    }
    let header = DetailRow::header(vec![DetailCell::text("Short Name")]);
    let mut rows: Vec<DetailRow> = Vec::new();
    let mut i: usize = 0;
    while i < names.len()
        invariant
            0 <= i <= names@.len(),
            rows@.len() == i,
            forall|k: int|
                0 <= k < i ==> named_row(
                    #[trigger] rows@[k],
                    names@[k]@,
                    CellType::ParameterName,
                    JumpV::TreeNodeByIndex {
                        index: if node_indices@.contains_key(names@[k]@) {
                            node_indices@[names@[k]@]
                        } else {
                            usize::MAX
                        },
                        short_name: names@[k]@,
                    },
                ),
        decreases names@.len() - i,
    {
        let jump = make_index_jump(names[i].as_str(), node_indices);
        let cell = DetailCell::new(names[i].as_str(), CellType::ParameterName).with_jump(jump);
        rows.push(DetailRow::normal(vec![cell], 0));
        i = i + 1;
    }
    let section = DetailSectionData::new(
        title.to_owned(),
        DetailContent::Table {
            header,
            rows,
            constraints: vec![ColumnConstraint::Percentage(100)],
            use_row_selection: true,
        },
        false,
    ).with_type(DetailSectionType::Overview);
    vec![section]
}

} // verus!
