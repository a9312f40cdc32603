//! Plain-text rendering of a [`DiffResult`].
//!
//! Unchanged elements are omitted so that the report shows what changed.
use vstd::prelude::*;

use crate::diff::compare::{
    law_compare_identical, saturated, spec_compare,
    any_changed, element_view, elements_view, lemma_element_view, props_view, DiffResult,
    DiffResultV, ElementDiff, ElementDiffV, PropertyDiff, PropertyDiffV,
};
use crate::diff::keyed_map::strictly_sorted;
use crate::diff::snapshot::EcuV;
use crate::text::{decimal, repeat, repeat_str, str_eq, usize_to_decimal};
use crate::tree::types::DiffStatus;

verus! {

broadcast use vstd::std_specs::vec::group_vec_axioms;

/// `std::io::Error`, the error of a failed write.
#[verifier::external_type_specification]
#[verifier::external_body]
pub struct ExIoError(std::io::Error);

// What the report says
pub open spec fn indent(depth: usize) -> Seq<char> {
    repeat("  "@, depth as nat)
}

pub open spec fn marker(status: DiffStatus) -> Seq<char> {
    match status {
        DiffStatus::Added => "[+]"@,
        DiffStatus::Removed => "[-]"@,
        DiffStatus::Modified => "[~]"@,
        DiffStatus::Unchanged => "[ ]"@,
    }
}

/// ` (kind)`, or nothing without a kind.
pub open spec fn kind_label(kind: Option<Seq<char>>) -> Seq<char> {
    match kind {
        Some(k) => " ("@ + k + ")"@,
        None => Seq::empty(),
    }
}

pub open spec fn opt_str_view(kind: Option<&str>) -> Option<Seq<char>> {
    match kind {
        Some(k) => Some(k@),
        None => None,
    }
}

/// `name: old -> new`, indented, as a line.
pub open spec fn property_line(p: PropertyDiffV, depth: usize) -> Seq<char> {
    indent(depth) + p.name + ": "@ + p.old_value + " -> "@ + p.new_value + "\n"@
}

pub open spec fn properties_text(ps: Seq<PropertyDiffV>, depth: usize) -> Seq<char>
    decreases ps.len(),
{
    if ps.len() == 0 {
        Seq::empty()
    } else {
        properties_text(ps.drop_last(), depth) + property_line(ps.last(), depth)
    }
}

/// One level deeper (saturating).
pub open spec fn next_depth(depth: usize) -> usize {
    if depth == usize::MAX {
        depth
    } else {
        (depth + 1) as usize
    }
}

/// The kind label of the children of a category element.
pub open spec fn child_kind(parent_name: Seq<char>) -> Option<Seq<char>> {
    if parent_name == "Services"@ {
        Some("Service"@)
    } else if parent_name == "SingleEcuJobs"@ {
        Some("SingleEcuJob"@)
    } else if parent_name == "StateCharts"@ {
        Some("StateChart"@)
    } else {
        None
    }
}

/// `marker name (kind)` at `depth`, without the line end.
pub open spec fn element_head(e: ElementDiffV, depth: usize, kind: Option<Seq<char>>) -> Seq<char> {
    indent(depth) + marker(e.status) + " "@ + e.name + kind_label(kind)
}

/// The lines of an element and its descendants: nothing for an unchanged
/// element; one line `marker name (kind): old -> new` for a modified element
/// with one property diff and no children; otherwise a heading line, then its
/// property diffs and its children one level deeper.
pub open spec fn element_text(e: ElementDiffV, depth: usize, kind: Option<Seq<char>>) -> Seq<char>
    decreases e,
{
    if e.status == DiffStatus::Unchanged {
        Seq::empty()
    } else if e.status == DiffStatus::Modified && e.children.len() == 0 && e.property_diffs.len()
        == 1 {
        element_head(e, depth, kind) + ": "@ + e.property_diffs[0].old_value + " -> "@
            + e.property_diffs[0].new_value + "\n"@
    } else {
        element_head(e, depth, kind) + "\n"@ + properties_text(e.property_diffs, next_depth(depth))
            + elements_text(e.children, next_depth(depth), child_kind(e.name))
    }
}

/// The lines of a list of elements, each with the same depth and kind.
pub open spec fn elements_text(es: Seq<ElementDiffV>, depth: usize, kind: Option<Seq<char>>) -> Seq<
    char,
>
    decreases es,
{
    if es.len() == 0 {
        Seq::empty()
    } else {
        elements_text(es.subrange(0, es.len() - 1), depth, kind) + element_text(
            es[es.len() - 1],
            depth,
            kind,
        )
    }
}

/// A section: its heading and its elements, or nothing when no element
/// changed.
pub open spec fn section_text(heading: Seq<char>, es: Seq<ElementDiffV>, kind: Seq<char>) -> Seq<
    char,
> {
    if es.len() == 0 || !any_changed(es) {
        Seq::empty()
    } else {
        "\n"@ + heading + ":\n"@ + elements_text(es, 1, Some(kind))
    }
}

/// The whole report.
pub open spec fn report(d: DiffResultV) -> Seq<char> {
    "Comparing: "@ + d.old_name + " vs "@ + d.new_name + "\n"@ + "+"@ + decimal(
        d.summary.added as nat,
    ) + " added, -"@ + decimal(d.summary.removed as nat) + " removed, ~"@ + decimal(
        d.summary.modified as nat,
    ) + " modified, "@ + decimal(d.summary.unchanged as nat) + " unchanged\n"@ + (if d.ecu_diffs.len()
        == 0 {
        Seq::empty()
    } else {
        "\nECU property changes:\n"@ + properties_text(d.ecu_diffs, 1)
    }) + section_text("Variants"@, d.variants, "Variant"@) + section_text(
        "Functional groups"@,
        d.functional_groups,
        "FunctionalGroup"@,
    ) + section_text("DTCs"@, d.dtcs, "DTC"@)
}

// Rendering
fn status_marker(status: DiffStatus) -> (r: &'static str)
    ensures
        r@ == marker(status),
{
    match status {
        DiffStatus::Added => "[+]",
        DiffStatus::Removed => "[-]",
        DiffStatus::Modified => "[~]",
        DiffStatus::Unchanged => "[ ]",
    }
}

/// Derive the kind label for children from the parent's name.
///
/// Category elements made by the comparison have well-known names; their
/// children get the singular kind.  Other children get no label, since the
/// heading already gives their context.
fn derive_child_kind<'a>(parent_name: &str, _parent_kind: Option<&'a str>) -> (r: Option<&'a str>)
    ensures
        opt_str_view(r) == child_kind(parent_name@),
{
    if str_eq(parent_name, "Services") {
        Some("Service")
    } else if str_eq(parent_name, "SingleEcuJobs") {
        Some("SingleEcuJob")
    } else if str_eq(parent_name, "StateCharts") {
        Some("StateChart")
    } else {
        None
    }
}

fn push_kind_label(out: &mut String, kind: Option<&str>)
    ensures
        final(out)@ == old(out)@ + kind_label(opt_str_view(kind)),
{
    match kind {
        Some(k) => {
            out.append(" (");
            out.append(k);
            out.append(")");
        },
        None => {
            assert(out@ + kind_label(opt_str_view(kind)) =~= out@);
        },
    }
}

fn write_property(out: &mut String, prop: &PropertyDiff, depth: usize)
    ensures
        final(out)@ == old(out)@ + property_line(prop@, depth),
{
    let ind = repeat_str("  ", depth);
    out.append(ind.as_str());
    out.append(prop.name.as_str());
    out.append(": ");
    out.append(prop.old_value.as_str());
    out.append(" -> ");
    out.append(prop.new_value.as_str());
    out.append("\n");
    assert(out@ =~= old(out)@ + property_line(prop@, depth));
}

fn write_properties(out: &mut String, props: &Vec<PropertyDiff>, depth: usize)
    ensures
        final(out)@ == old(out)@ + properties_text(props_view(props@), depth),
{
    let ghost start = out@;
    let ghost pv = props_view(props@);
    let mut i: usize = 0;
    while i < props.len()
        invariant
            0 <= i <= props@.len(),
            pv == props_view(props@),
            out@ == start + properties_text(pv.subrange(0, i as int), depth),
        decreases props.len() - i,
    {
        write_property(out, &props[i], depth);
        proof {
            let s = pv.subrange(0, i + 1);
            assert(s.drop_last() =~= pv.subrange(0, i as int));
            assert(s.last() == props@[i as int]@);
        }
        i = i + 1;
    }
    assert(pv.subrange(0, props@.len() as int) =~= pv);
}

proof fn lemma_elements_text_step(es: Seq<ElementDiffV>, i: int, depth: usize, kind: Option<Seq<char>>)
    requires
        0 <= i < es.len(),
    ensures
        elements_text(es.subrange(0, i + 1), depth, kind) == elements_text(es.subrange(0, i), depth, kind)
            + element_text(es[i], depth, kind),
{
    let s = es.subrange(0, i + 1);
    assert(s.subrange(0, s.len() - 1) =~= es.subrange(0, i));
}

fn write_head(out: &mut String, elem: &ElementDiff, depth: usize, kind: Option<&str>)
    ensures
        final(out)@ == old(out)@ + element_head(elem@, depth, opt_str_view(kind)),
{
    let ind = repeat_str("  ", depth);
    out.append(ind.as_str());
    out.append(status_marker(elem.status));
    out.append(" ");
    out.append(elem.name.as_str());
    push_kind_label(out, kind);
    assert(out@ =~= old(out)@ + element_head(elem@, depth, opt_str_view(kind)));
}

/// Append the lines of the children of `elem`.
fn write_children(out: &mut String, elem: &ElementDiff, depth: usize, kind: Option<&str>)
    ensures
        final(out)@ == old(out)@ + elements_text(elements_view(elem.children@), depth, opt_str_view(kind)),
    decreases elem, 0int,
{
    let ghost head = out@;
    let ghost cv = elements_view(elem.children@);
    let mut i: usize = 0;
    while i < elem.children.len()
        invariant
            0 <= i <= elem.children@.len(),
            cv == elements_view(elem.children@),
            out@ == head + elements_text(cv.subrange(0, i as int), depth, opt_str_view(kind)),
        decreases elem.children.len() - i,
    {
        proof {
            vstd::std_specs::vec::axiom_vec_index_decreases(elem.children, i as int);
            assert(decreases_to!(*elem => elem.children@[i as int]));
            lemma_elements_text_step(cv, i as int, depth, opt_str_view(kind));
        }
        write_element(out, &elem.children[i], depth, kind);
        i = i + 1;
    }
    assert(cv.subrange(0, elem.children@.len() as int) =~= cv);
}

/// Append the lines of `elem` and its descendants.
fn write_element(out: &mut String, elem: &ElementDiff, depth: usize, kind: Option<&str>)
    ensures
        final(out)@ == old(out)@ + element_text(elem@, depth, opt_str_view(kind)),
    decreases elem, 1int,
{
    proof {
        lemma_element_view(*elem);
    }
    let ghost ev = elem@;
    if elem.status == DiffStatus::Unchanged {
        assert(out@ + element_text(ev, depth, opt_str_view(kind)) =~= out@);
        return;
    }
    // A modified leaf with one property diff is written on one line.
    let is_leaf_with_single_diff = elem.children.len() == 0 && elem.property_diffs.len() == 1;
    if elem.status == DiffStatus::Modified && is_leaf_with_single_diff {
        let p = &elem.property_diffs[0];
        write_head(out, elem, depth, kind);
        out.append(": ");
        out.append(p.old_value.as_str());
        out.append(" -> ");
        out.append(p.new_value.as_str());
        out.append("\n");
        assert(ev.property_diffs[0] == p@);
        assert(out@ =~= old(out)@ + element_text(ev, depth, opt_str_view(kind)));
        return;
    }
    write_head(out, elem, depth, kind);
    out.append("\n");
    let ghost after_head = out@;
    let child_depth = depth.saturating_add(1);
    write_properties(out, &elem.property_diffs, child_depth);
    let ghost after_props = out@;
    let child_kind = derive_child_kind(elem.name.as_str(), kind);
    write_children(out, elem, child_depth, child_kind);
    assert(out@ =~= old(out)@ + element_text(ev, depth, opt_str_view(kind))) by {
        assert(after_head =~= old(out)@ + element_head(ev, depth, opt_str_view(kind)) + "\n"@);
    }
}

/// Append a section of the report.
fn write_section(out: &mut String, heading: &str, elements: &Vec<ElementDiff>, item_kind: &str)
    ensures
        final(out)@ == old(out)@ + section_text(heading@, elements_view(elements@), item_kind@),
{
    let ghost ev = elements_view(elements@);
    let mut has_changes = false;
    let mut i: usize = 0;
    while i < elements.len()
        invariant
            0 <= i <= elements@.len(),
            ev == elements_view(elements@),
            has_changes == exists|j: int| 0 <= j < i && ev[j].status != DiffStatus::Unchanged,
        decreases elements.len() - i,
    {
        assert(ev[i as int].status == elements@[i as int].status);
        if elements[i].status != DiffStatus::Unchanged {
            has_changes = true;
        }
        i = i + 1;
    }
    if elements.len() == 0 || !has_changes {
        assert(out@ + section_text(heading@, ev, item_kind@) =~= out@);
        return;
    }
    out.append("\n");
    out.append(heading);
    out.append(":\n");
    let ghost head = out@;
    let mut i: usize = 0;
    while i < elements.len()
        invariant
            0 <= i <= elements@.len(),
            ev == elements_view(elements@),
            out@ == head + elements_text(ev.subrange(0, i as int), 1, Some(item_kind@)),
        decreases elements.len() - i,
    {
        proof {
            lemma_elements_text_step(ev, i as int, 1, Some(item_kind@));
        }
        write_element(out, &elements[i], 1, Some(item_kind));
        i = i + 1;
    }
    assert(ev.subrange(0, elements@.len() as int) =~= ev);
    assert(out@ =~= old(out)@ + section_text(heading@, ev, item_kind@));
}

/// The plain-text diff report.
pub fn report_text(diff: &DiffResult) -> (r: String)
    ensures
        r@ == report(diff@),
{
    let mut out = String::new();
    out.append("Comparing: ");
    out.append(diff.old_name.as_str());
    out.append(" vs ");
    out.append(diff.new_name.as_str());
    out.append("\n");
    out.append("+");
    out.append(usize_to_decimal(diff.summary.added).as_str());
    out.append(" added, -");
    out.append(usize_to_decimal(diff.summary.removed).as_str());
    out.append(" removed, ~");
    out.append(usize_to_decimal(diff.summary.modified).as_str());
    out.append(" modified, ");
    out.append(usize_to_decimal(diff.summary.unchanged).as_str());
    out.append(" unchanged\n");
    let ghost head = out@;
    if diff.ecu_diffs.len() != 0 {
        out.append("\nECU property changes:\n");
        write_properties(&mut out, &diff.ecu_diffs, 1);
    }
    let ghost with_props = out@;
    write_section(&mut out, "Variants", &diff.variants, "Variant");
    write_section(&mut out, "Functional groups", &diff.functional_groups, "FunctionalGroup");
    write_section(&mut out, "DTCs", &diff.dtcs, "DTC");
    proof {
        let ecu = if diff@.ecu_diffs.len() == 0 {
            Seq::<char>::empty()
        } else {
            "\nECU property changes:\n"@ + properties_text(diff@.ecu_diffs, 1)
        };
        assert(with_props =~= head + ecu);
    }
    assert(out@ =~= report(diff@));
    out
}

/// Writes the plain-text diff report to `w`, as UTF-8.
///
/// Unchanged elements are omitted so the output shows actual changes.
/// Writing to a byte buffer does not fail.
pub fn write_text_report(w: &mut Vec<u8>, diff: &DiffResult) -> (r: Result<(), std::io::Error>)
    ensures
        r is Ok,
        final(w)@ == old(w)@ + vstd::utf8::encode_utf8(report(diff@)),
{
    let text = report_text(diff);
    let bytes = text.as_str().as_bytes();
    w.extend_from_slice(bytes);
    assert(final(w)@ =~= old(w)@ + vstd::utf8::encode_utf8(report(diff@)));
    Ok(())
}


/// The report's first line names the two databases compared, and its second
/// line is the summary: `+added added, -removed removed, ~modified modified,
/// unchanged unchanged`, each count printed next to its own label. The
/// report begins with exactly these two lines, whatever the diff holds.
pub proof fn law_report_summary_line(d: DiffResultV)
    ensures
        ({
            let head = "Comparing: "@ + d.old_name + " vs "@ + d.new_name + "\n"@;
            let line = "+"@ + decimal(d.summary.added as nat) + " added, -"@ + decimal(
                d.summary.removed as nat,
            ) + " removed, ~"@ + decimal(d.summary.modified as nat) + " modified, "@ + decimal(
                d.summary.unchanged as nat,
            ) + " unchanged\n"@;
            &&& report(d).len() >= head.len() + line.len()
            &&& report(d).subrange(0, head.len() as int) == head
            &&& report(d).subrange(head.len() as int, (head.len() + line.len()) as int) == line
        }),
{
    let head = "Comparing: "@ + d.old_name + " vs "@ + d.new_name + "\n"@;
    let line = "+"@ + decimal(d.summary.added as nat) + " added, -"@ + decimal(
        d.summary.removed as nat,
    ) + " removed, ~"@ + decimal(d.summary.modified as nat) + " modified, "@ + decimal(
        d.summary.unchanged as nat,
    ) + " unchanged\n"@;
    let ecu = if d.ecu_diffs.len() == 0 {
        Seq::<char>::empty()
    } else {
        "\nECU property changes:\n"@ + properties_text(d.ecu_diffs, 1)
    };
    let rest = ecu + section_text("Variants"@, d.variants, "Variant"@) + section_text(
        "Functional groups"@,
        d.functional_groups,
        "FunctionalGroup"@,
    ) + section_text("DTCs"@, d.dtcs, "DTC"@);
    assert(report(d) =~= head + line + rest);
    assert((head + line + rest).subrange(0, head.len() as int) =~= head);
    assert((head + line + rest).subrange(head.len() as int, (head.len() + line.len()) as int)
        =~= line);
}

/// The report on an ECU snapshot compared with itself is its two heading
/// lines only: no property changes and no section.
pub proof fn law_report_identical(e: EcuV)
    requires
        strictly_sorted(e.variants),
        strictly_sorted(e.functional_groups),
        strictly_sorted(e.dtcs),
    ensures
        report(spec_compare(e, e)) == "Comparing: "@ + e.name + " vs "@ + e.name + "\n"@ + "+"@
            + decimal(0) + " added, -"@ + decimal(0) + " removed, ~"@ + decimal(0)
            + " modified, "@ + decimal(
            saturated(e.variants.len() + e.functional_groups.len() + e.dtcs.len()) as nat,
        ) + " unchanged\n"@,
{
    law_compare_identical(e);
    let d = spec_compare(e, e);
    assert(!any_changed(d.variants));
    assert(!any_changed(d.functional_groups));
    assert(!any_changed(d.dtcs));
    assert(report(d) =~= "Comparing: "@ + e.name + " vs "@ + e.name + "\n"@ + "+"@ + decimal(0)
        + " added, -"@ + decimal(0) + " removed, ~"@ + decimal(0) + " modified, "@ + decimal(
        saturated(e.variants.len() + e.functional_groups.len() + e.dtcs.len()) as nat,
    ) + " unchanged\n"@);
}

} // verus!
