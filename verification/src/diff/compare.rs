//! Structural comparison of two [`EcuSnapshot`]s.
//!
//! [`compare`] walks the old and new snapshots in parallel and produces a
//! [`DiffResult`] that describes every addition, removal, modification, and
//! unchanged element at every level of the hierarchy.  The `spec_*`
//! functions below state, over the snapshots' views, what each comparison
//! gives.
use vstd::prelude::*;

use crate::diff::keyed_map::{
    has_key, insert_entry, keys_of, lemma_seq_lt_irreflexive, lemma_value_of_absent, lemma_value_of_index, value_of,
    KeyedMap, strictly_sorted,
};
use crate::diff::snapshot::{
    params_view, responses_view, AudienceSnapshot, DiagCommSnapshot, DiagCommV, RequestSnapshot, RequestV,
    DiagLayerSnapshot, DiagLayerV, DiagServiceSnapshot, DiagServiceV, DtcSnapshot, DtcV,
    EcuSnapshot, EcuV, FunctionalGroupSnapshot, FunctionalGroupV, ParamSnapshot, ParamV,
    ResponseSnapshot, ResponseV, SingleEcuJobSnapshot, SingleEcuJobV, StateChartSnapshot,
    StateChartV, VariantSnapshot, VariantV, pairs_view, strings_equal,
};
use crate::text::{
    decimal, hex, pad_left, seq_lt, u64_to_decimal, usize_to_decimal, hex_padded, digit_char,
    lemma_decimal_injective, lemma_decimal_last,
};
use crate::tree::types::{strings_view, DiffStatus};

verus! {

broadcast use vstd::std_specs::vec::group_vec_axioms;

// Public types
/// A single property that changed between old and new.
#[derive(Clone, Debug)]
pub struct PropertyDiff {
    pub name: String,
    pub old_value: String,
    pub new_value: String,
}

/// Diff summary counts (top-level elements only).
#[derive(Clone, Copy, Debug)]
pub struct DiffSummary {
    pub added: usize,
    pub removed: usize,
    pub modified: usize,
    pub unchanged: usize,
}

impl Default for DiffSummary {
    fn default() -> (r: Self)
        ensures
            r.added == 0 && r.removed == 0 && r.modified == 0 && r.unchanged == 0,
    {
        DiffSummary { added: 0, removed: 0, modified: 0, unchanged: 0 }
    }
}

/// Diff of a named element at any level of the hierarchy.
#[derive(Debug)]
pub struct ElementDiff {
    pub name: String,
    pub status: DiffStatus,
    pub property_diffs: Vec<PropertyDiff>,
    pub children: Vec<ElementDiff>,
}

/// Top-level diff result comparing two ECU snapshots.
#[derive(Debug)]
pub struct DiffResult {
    pub old_name: String,
    pub new_name: String,
    pub ecu_diffs: Vec<PropertyDiff>,
    pub variants: Vec<ElementDiff>,
    pub functional_groups: Vec<ElementDiff>,
    pub dtcs: Vec<ElementDiff>,
    pub summary: DiffSummary,
}

// Views
pub ghost struct PropertyDiffV {
    pub name: Seq<char>,
    pub old_value: Seq<char>,
    pub new_value: Seq<char>,
}

impl View for PropertyDiff {
    type V = PropertyDiffV;

    open spec fn view(&self) -> PropertyDiffV {
        PropertyDiffV { name: self.name@, old_value: self.old_value@, new_value: self.new_value@ }
    }
}

pub open spec fn props_view(v: Seq<PropertyDiff>) -> Seq<PropertyDiffV> {
    v.map_values(|p: PropertyDiff| p@)
}

pub ghost struct ElementDiffV {
    pub name: Seq<char>,
    pub status: DiffStatus,
    pub property_diffs: Seq<PropertyDiffV>,
    pub children: Seq<ElementDiffV>,
}

pub open spec fn element_view(e: ElementDiff) -> ElementDiffV
    decreases e,
{
    ElementDiffV {
        name: e.name@,
        status: e.status,
        property_diffs: props_view(e.property_diffs@),
        children: Seq::new(
            e.children@.len(),
            |i: int|
                {
                    if 0 <= i < e.children@.len() {
                        proof {
                            vstd::std_specs::vec::axiom_vec_index_decreases(e.children, i);
                        }
                        element_view(e.children@[i])
                    } else {
                        arbitrary()
                    }
                },
        ),
    }
}

pub open spec fn elements_view(v: Seq<ElementDiff>) -> Seq<ElementDiffV> {
    v.map_values(|e: ElementDiff| element_view(e))
}

impl View for ElementDiff {
    type V = ElementDiffV;

    open spec fn view(&self) -> ElementDiffV {
        element_view(*self)
    }
}

/// The children of an element's view are the views of its children.
pub proof fn lemma_element_view(e: ElementDiff)
    ensures
        element_view(e).children == elements_view(e.children@),
{
    assert(element_view(e).children =~= elements_view(e.children@));
}

proof fn lemma_elements_view_push(v: Seq<ElementDiff>, e: ElementDiff)
    ensures
        elements_view(v.push(e)) == elements_view(v) + seq![e@],
{
    assert(elements_view(v.push(e)) =~= elements_view(v) + seq![e@]);
}

proof fn lemma_elements_view_add(a: Seq<ElementDiff>, b: Seq<ElementDiff>)
    ensures
        elements_view(a + b) == elements_view(a) + elements_view(b),
{
    assert(elements_view(a + b) =~= elements_view(a) + elements_view(b));
}

/// Move the elements of `tail` to the end of `v`.
fn append_elements(v: &mut Vec<ElementDiff>, tail: Vec<ElementDiff>)
    ensures
        elements_view(final(v)@) == elements_view(old(v)@) + elements_view(tail@),
{
    let mut tail = tail;
    let ghost a = v@;
    let ghost b = tail@;
    v.append(&mut tail);
    proof {
        lemma_elements_view_add(a, b);
    }
}

pub ghost struct DiffSummaryV {
    pub added: usize,
    pub removed: usize,
    pub modified: usize,
    pub unchanged: usize,
}

pub ghost struct DiffResultV {
    pub old_name: Seq<char>,
    pub new_name: Seq<char>,
    pub ecu_diffs: Seq<PropertyDiffV>,
    pub variants: Seq<ElementDiffV>,
    pub functional_groups: Seq<ElementDiffV>,
    pub dtcs: Seq<ElementDiffV>,
    pub summary: DiffSummaryV,
}

impl View for DiffResult {
    type V = DiffResultV;

    open spec fn view(&self) -> DiffResultV {
        DiffResultV {
            old_name: self.old_name@,
            new_name: self.new_name@,
            ecu_diffs: props_view(self.ecu_diffs@),
            variants: elements_view(self.variants@),
            functional_groups: elements_view(self.functional_groups@),
            dtcs: elements_view(self.dtcs@),
            summary: DiffSummaryV {
                added: self.summary.added,
                removed: self.summary.removed,
                modified: self.summary.modified,
                unchanged: self.summary.unchanged,
            },
        }
    }
}

// Text of values
pub open spec fn bool_text(b: bool) -> Seq<char> {
    if b {
        "true"@
    } else {
        "false"@
    }
}

pub open spec fn opt_u32_text(o: Option<u32>) -> Seq<char> {
    match o {
        Some(v) => decimal(v as nat),
        None => "None"@,
    }
}

/// `parts` joined with `sep` between consecutive parts.
pub open spec fn join(parts: Seq<Seq<char>>, sep: Seq<char>) -> Seq<char>
    decreases parts.len(),
{
    if parts.len() == 0 {
        Seq::empty()
    } else if parts.len() == 1 {
        parts[0]
    } else {
        join(parts.drop_last(), sep) + sep + parts.last()
    }
}

pub open spec fn request_id_text(o: Option<u8>) -> Seq<char> {
    match o {
        Some(id) => "0x"@ + pad_left(hex(id as nat), '0', 2),
        None => "None"@,
    }
}

pub open spec fn sub_function_text(o: Option<(u32, u32)>) -> Seq<char> {
    match o {
        Some((sub_fn, bit_len)) => "0x"@ + hex(sub_fn as nat) + " ("@ + decimal(bit_len as nat)
            + " bits)"@,
        None => "None"@,
    }
}

pub open spec fn metadata_text(m: Seq<(Seq<char>, Seq<char>)>) -> Seq<char> {
    join(m.map_values(|p: (Seq<char>, Seq<char>)| p.0 + "="@ + p.1), "; "@)
}

// Property diffs
pub open spec fn prop(name: Seq<char>, old: Seq<char>, new: Seq<char>) -> PropertyDiffV {
    PropertyDiffV { name, old_value: old, new_value: new }
}

/// One property diff when the two texts differ, none otherwise.
pub open spec fn prop_if(name: Seq<char>, old: Seq<char>, new: Seq<char>) -> Seq<PropertyDiffV> {
    if old != new {
        seq![prop(name, old, new)]
    } else {
        Seq::empty()
    }
}

/// One property diff, the lists joined by `", "`, when the lists differ.
pub open spec fn list_prop_if(name: Seq<char>, old: Seq<Seq<char>>, new: Seq<Seq<char>>) -> Seq<
    PropertyDiffV,
> {
    if old != new {
        seq![prop(name, join(old, ", "@), join(new, ", "@))]
    } else {
        Seq::empty()
    }
}

pub open spec fn opt_u32_prop_if(name: Seq<char>, old: Option<u32>, new: Option<u32>) -> Seq<
    PropertyDiffV,
> {
    if old != new {
        seq![prop(name, opt_u32_text(old), opt_u32_text(new))]
    } else {
        Seq::empty()
    }
}

// Element diffs
pub open spec fn simple(name: Seq<char>, status: DiffStatus) -> ElementDiffV {
    ElementDiffV { name, status, property_diffs: Seq::empty(), children: Seq::empty() }
}

pub open spec fn any_changed(children: Seq<ElementDiffV>) -> bool {
    exists|i: int| 0 <= i < children.len() && children[i].status != DiffStatus::Unchanged
}

/// A category element: Modified when any child changed, Unchanged otherwise.
pub open spec fn category(name: Seq<char>, children: Seq<ElementDiffV>) -> ElementDiffV {
    ElementDiffV {
        name,
        status: if any_changed(children) {
            DiffStatus::Modified
        } else {
            DiffStatus::Unchanged
        },
        property_diffs: Seq::empty(),
        children,
    }
}

/// A category element when there are child diffs, nothing otherwise.
pub open spec fn category_if(name: Seq<char>, children: Seq<ElementDiffV>) -> Seq<ElementDiffV> {
    if children.len() == 0 {
        Seq::empty()
    } else {
        seq![category(name, children)]
    }
}

/// Entries of `a` whose name is not in `b`, each as an element with `status`.
pub open spec fn only_in<V>(a: Seq<(Seq<char>, V)>, b: Seq<(Seq<char>, V)>, status: DiffStatus) -> Seq<
    ElementDiffV,
>
    decreases a.len(),
{
    if a.len() == 0 {
        Seq::empty()
    } else {
        only_in(a.drop_last(), b, status) + if has_key(b, a.last().0) {
            Seq::empty()
        } else {
            seq![simple(a.last().0, status)]
        }
    }
}

/// Values that the diff compares, with what comparing two of them gives.
pub trait Compared: View + Sized {
    /// Property and child diffs of two values that differ.
    spec fn spec_diff(old: Self::V, new: Self::V) -> (Seq<PropertyDiffV>, Seq<ElementDiffV>);

    fn same(&self, other: &Self) -> (r: bool)
        ensures
            r == (self@ == other@),
    ;

    fn diff(&self, other: &Self) -> (r: (Vec<PropertyDiff>, Vec<ElementDiff>))
        ensures
            props_view(r.0@) == Self::spec_diff(self@, other@).0,
            elements_view(r.1@) == Self::spec_diff(self@, other@).1,
    ;
}

/// The element for an entry present in both maps.
pub open spec fn common_element<T: Compared>(name: Seq<char>, old: T::V, new: T::V) -> ElementDiffV {
    if old == new {
        simple(name, DiffStatus::Unchanged)
    } else {
        ElementDiffV {
            name,
            status: DiffStatus::Modified,
            property_diffs: T::spec_diff(old, new).0,
            children: T::spec_diff(old, new).1,
        }
    }
}

/// Elements for the entries of `old` whose name is also in `new`, in `old`'s
/// order; unchanged entries are listed only when `keep_unchanged`.
pub open spec fn common_part<T: Compared>(
    old: Seq<(Seq<char>, T::V)>,
    new: Seq<(Seq<char>, T::V)>,
    keep_unchanged: bool,
) -> Seq<ElementDiffV>
    decreases old.len(),
{
    if old.len() == 0 {
        Seq::empty()
    } else {
        let (k, v) = old.last();
        common_part::<T>(old.drop_last(), new, keep_unchanged) + match value_of(new, k) {
            Some(nv) => if nv == v && !keep_unchanged {
                Seq::empty()
            } else {
                seq![common_element::<T>(k, v, nv)]
            },
            None => Seq::empty(),
        }
    }
}

/// Removed entries, then entries in both (modified, and unchanged ones when
/// `keep_unchanged`), then added entries; each group in name order.
pub open spec fn entries_diff<T: Compared>(
    old: Seq<(Seq<char>, T::V)>,
    new: Seq<(Seq<char>, T::V)>,
    keep_unchanged: bool,
) -> Seq<ElementDiffV> {
    only_in(old, new, DiffStatus::Removed) + common_part::<T>(old, new, keep_unchanged) + only_in(
        new,
        old,
        DiffStatus::Added,
    )
}

/// The diff of two maps: removed entries, then entries in both (modified or
/// unchanged), then added entries; each group in name order.
pub open spec fn map_diff<T: Compared>(
    old: Seq<(Seq<char>, T::V)>,
    new: Seq<(Seq<char>, T::V)>,
) -> Seq<ElementDiffV> {
    entries_diff::<T>(old, new, true)
}

/// Number of elements with the given status.
pub open spec fn count_status(s: Seq<ElementDiffV>, status: DiffStatus) -> nat
    decreases s.len(),
{
    if s.len() == 0 {
        0
    } else {
        count_status(s.drop_last(), status) + if s.last().status == status {
            1nat
        } else {
            0nat
        }
    }
}

pub open spec fn sat_add(a: usize, b: nat) -> usize {
    if a + b > usize::MAX {
        usize::MAX
    } else {
        (a + b) as usize
    }
}

/// The summary after counting the elements of `d` into `s`.
pub open spec fn summary_after(s: DiffSummary, d: Seq<ElementDiffV>) -> DiffSummary {
    DiffSummary {
        added: sat_add(s.added, count_status(d, DiffStatus::Added)),
        removed: sat_add(s.removed, count_status(d, DiffStatus::Removed)),
        modified: sat_add(s.modified, count_status(d, DiffStatus::Modified)),
        unchanged: sat_add(s.unchanged, count_status(d, DiffStatus::Unchanged)),
    }
}

// Exec helpers
fn simple_diff(name: String, status: DiffStatus) -> (r: ElementDiff)
    ensures
        r@ == simple(name@, status),
{
    let r = ElementDiff { name, status, property_diffs: Vec::new(), children: Vec::new() };
    proof {
        lemma_element_view(r);
        assert(props_view(r.property_diffs@) =~= Seq::empty());
        assert(elements_view(r.children@) =~= Seq::empty());
    }
    r
}

/// Create a category element (Modified if any child has changes).
fn create_category_diff(name: &str, children: Vec<ElementDiff>) -> (r: ElementDiff)
    ensures
        r@ == category(name@, elements_view(children@)),
{
    let ghost cv = elements_view(children@);
    let mut has_changes = false;
    let mut i: usize = 0;
    while i < children.len()
        invariant
            0 <= i <= children@.len(),
            cv == elements_view(children@),
            has_changes == exists|j: int| 0 <= j < i && cv[j].status != DiffStatus::Unchanged,
        decreases children.len() - i,
    {
        assert(cv[i as int].status == children@[i as int].status);
        if children[i].status != DiffStatus::Unchanged {
            has_changes = true;
        }
        i = i + 1;
    }
    let r = ElementDiff {
        name: name.to_owned(),
        status: if has_changes {
            DiffStatus::Modified
        } else {
            DiffStatus::Unchanged
        },
        property_diffs: Vec::new(),
        children,
    };
    proof {
        lemma_element_view(r);
        assert(props_view(r.property_diffs@) =~= Seq::empty());
    }
    r
}

pub(crate) fn bool_str(b: bool) -> (r: &'static str)
    ensures
        r@ == bool_text(b),
{
    if b {
        "true"
    } else {
        "false"
    }
}

/// Parts joined with `sep`.
pub fn join_strings(parts: &Vec<String>, sep: &str) -> (r: String)
    ensures
        r@ == join(strings_view(parts@), sep@),
{
    let mut r = String::new();
    let mut i: usize = 0;
    while i < parts.len()
        invariant
            0 <= i <= parts@.len(),
            r@ == join(strings_view(parts@).subrange(0, i as int), sep@),
        decreases parts.len() - i,
    {
        if i > 0 {
            r.append(sep);
        }
        r.append(parts[i].as_str());
        proof {
            let pre = strings_view(parts@).subrange(0, i + 1);
            assert(pre.drop_last() =~= strings_view(parts@).subrange(0, i as int));
            if i == 0 {
                assert(strings_view(parts@).subrange(0, 0) =~= Seq::<Seq<char>>::empty());
            }
        }
        i = i + 1;
    }
    assert(strings_view(parts@).subrange(0, parts@.len() as int) =~= strings_view(parts@));
    r
}

fn make_prop(name: &str, old_value: String, new_value: String) -> (r: PropertyDiff)
    ensures
        r@ == prop(name@, old_value@, new_value@),
{
    PropertyDiff { name: name.to_owned(), old_value, new_value }
}

/// Push a property diff when the two texts differ.
fn diff_text(name: &str, a: &str, b: &str, diffs: &mut Vec<PropertyDiff>)
    ensures
        props_view(final(diffs)@) == props_view(old(diffs)@) + prop_if(name@, a@, b@),
{
    let o = a.to_owned();
    let n = b.to_owned();
    if o != n {
        diffs.push(make_prop(name, o, n));
    }
    assert(props_view(diffs@) =~= props_view(old(diffs)@) + prop_if(name@, a@, b@));
}

fn diff_bool(name: &str, a: bool, b: bool, diffs: &mut Vec<PropertyDiff>)
    ensures
        props_view(final(diffs)@) == props_view(old(diffs)@) + prop_if(
            name@,
            bool_text(a),
            bool_text(b),
        ),
{
    diff_text(name, bool_str(a), bool_str(b), diffs);
}

fn diff_u32(name: &str, a: u32, b: u32, diffs: &mut Vec<PropertyDiff>)
    ensures
        props_view(final(diffs)@) == props_view(old(diffs)@) + prop_if(
            name@,
            decimal(a as nat),
            decimal(b as nat),
        ),
{
    let o = u64_to_decimal(a as u64);
    let n = u64_to_decimal(b as u64);
    diff_text(name, o.as_str(), n.as_str(), diffs);
}

fn opt_u32_string(o: Option<u32>) -> (r: String)
    ensures
        r@ == opt_u32_text(o),
{
    match o {
        Some(v) => u64_to_decimal(v as u64),
        None => "None".to_owned(),
    }
}

fn diff_opt_u32(name: &str, a: Option<u32>, b: Option<u32>, diffs: &mut Vec<PropertyDiff>)
    ensures
        props_view(final(diffs)@) == props_view(old(diffs)@) + opt_u32_prop_if(name@, a, b),
{
    if a != b {
        diffs.push(make_prop(name, opt_u32_string(a), opt_u32_string(b)));
    }
    assert(props_view(diffs@) =~= props_view(old(diffs)@) + opt_u32_prop_if(name@, a, b));
}

fn diff_string_vec(name: &str, a: &Vec<String>, b: &Vec<String>, diffs: &mut Vec<PropertyDiff>)
    ensures
        props_view(final(diffs)@) == props_view(old(diffs)@) + list_prop_if(
            name@,
            strings_view(a@),
            strings_view(b@),
        ),
{
    if !strings_equal(a, b) {
        diffs.push(make_prop(name, join_strings(a, ", "), join_strings(b, ", ")));
    }
    assert(props_view(diffs@) =~= props_view(old(diffs)@) + list_prop_if(
        name@,
        strings_view(a@),
        strings_view(b@),
    ));
}


proof fn lemma_only_in_step<V>(a: Seq<(Seq<char>, V)>, b: Seq<(Seq<char>, V)>, status: DiffStatus, i: int)
    requires
        0 <= i < a.len(),
    ensures
        only_in(a.take(i + 1), b, status) == only_in(a.take(i), b, status) + if has_key(b, a[i].0) {
            Seq::empty()
        } else {
            seq![simple(a[i].0, status)]
        },
{
    assert(a.take(i + 1).drop_last() =~= a.take(i));
}

proof fn lemma_common_step<T: Compared>(
    a: Seq<(Seq<char>, T::V)>,
    b: Seq<(Seq<char>, T::V)>,
    keep: bool,
    i: int,
)
    requires
        0 <= i < a.len(),
    ensures
        common_part::<T>(a.take(i + 1), b, keep) == common_part::<T>(a.take(i), b, keep) + match value_of(b, a[i].0) {
            Some(nv) => if nv == a[i].1 && !keep {
                Seq::empty()
            } else {
                seq![common_element::<T>(a[i].0, a[i].1, nv)]
            },
            None => Seq::empty(),
        },
{
    assert(a.take(i + 1).drop_last() =~= a.take(i));
}

proof fn lemma_count_push(d: Seq<ElementDiffV>, x: ElementDiffV, st: DiffStatus)
    ensures
        count_status(d.push(x), st) == count_status(d, st) + if x.status == st {
            1nat
        } else {
            0nat
        },
{
    assert(d.push(x).drop_last() =~= d);
}

fn bump(summary: &mut DiffSummary, status: DiffStatus)
    ensures
        final(summary).added == sat_add(old(summary).added, if status == DiffStatus::Added { 1nat } else { 0nat }),
        final(summary).removed == sat_add(old(summary).removed, if status == DiffStatus::Removed { 1nat } else { 0nat }),
        final(summary).modified == sat_add(old(summary).modified, if status == DiffStatus::Modified { 1nat } else { 0nat }),
        final(summary).unchanged == sat_add(old(summary).unchanged, if status == DiffStatus::Unchanged { 1nat } else { 0nat }),
{
    match status {
        DiffStatus::Added => summary.added = summary.added.saturating_add(1),
        DiffStatus::Removed => summary.removed = summary.removed.saturating_add(1),
        DiffStatus::Modified => summary.modified = summary.modified.saturating_add(1),
        DiffStatus::Unchanged => summary.unchanged = summary.unchanged.saturating_add(1),
    }
}

/// Push an element and count it.
fn push_counted(results: &mut Vec<ElementDiff>, e: ElementDiff, summary: &mut DiffSummary, Ghost(s0): Ghost<DiffSummary>)
    requires
        *old(summary) == summary_after(s0, elements_view(old(results)@)),
    ensures
        elements_view(final(results)@) == elements_view(old(results)@).push(e@),
        *final(summary) == summary_after(s0, elements_view(final(results)@)),
{
    let st = e.status;
    let ghost before = elements_view(results@);
    results.push(e);
    bump(summary, st);
    proof {
        assert(elements_view(results@) =~= before.push(e@));
        assert(element_view(e).status == st);
        lemma_count_push(before, e@, DiffStatus::Added);
        lemma_count_push(before, e@, DiffStatus::Removed);
        lemma_count_push(before, e@, DiffStatus::Modified);
        lemma_count_push(before, e@, DiffStatus::Unchanged);
    }
}

/// Compare two maps of named values.
///
/// Names only in `before` are Removed, names only in `after` are Added, and
/// names in both are Unchanged or Modified (with the value comparison's
/// property and child diffs).  `summary` counts the elements of this level.
pub fn compare_maps<T: Compared>(
    before: &KeyedMap<T>,
    after: &KeyedMap<T>,
    summary: &mut DiffSummary,
) -> (r: Vec<ElementDiff>)
    ensures
        elements_view(r@) == map_diff::<T>(before@, after@),
        *final(summary) == summary_after(*old(summary), map_diff::<T>(before@, after@)),
{
    diff_entries(before, after, true, summary)
}

/// The entry diff of two maps, counted into `summary`.
fn diff_entries<T: Compared>(
    before: &KeyedMap<T>,
    after: &KeyedMap<T>,
    keep_unchanged: bool,
    summary: &mut DiffSummary,
) -> (r: Vec<ElementDiff>)
    ensures
        elements_view(r@) == entries_diff::<T>(before@, after@, keep_unchanged),
        *final(summary) == summary_after(*old(summary), entries_diff::<T>(before@, after@, keep_unchanged)),
{
    let ghost s0 = *summary;
    let mut results: Vec<ElementDiff> = Vec::new();
    proof {
        assert(elements_view(results@) =~= Seq::empty());
    }
    // Removed: names in `before` but not in `after`.
    let n = before.len();
    let mut i: usize = 0;
    while i < n
        invariant
            n == before@.len(),
            0 <= i <= n,
            elements_view(results@) == only_in(before@.take(i as int), after@, DiffStatus::Removed),
            *summary == summary_after(s0, elements_view(results@)),
        decreases n - i,
    {
        let key = before.key_at(i);
        proof {
            lemma_only_in_step(before@, after@, DiffStatus::Removed, i as int);
        }
        if !after.contains_key(key.as_str()) {
            push_counted(&mut results, simple_diff(key.clone(), DiffStatus::Removed), summary, Ghost(s0));
        }
        i = i + 1;
    }
    assert(before@.take(n as int) =~= before@);
    let ghost removed = elements_view(results@);
    // Modified or Unchanged: names in both.
    let mut i: usize = 0;
    while i < n
        invariant
            n == before@.len(),
            0 <= i <= n,
            elements_view(results@) == removed + common_part::<T>(before@.take(i as int), after@, keep_unchanged),
            *summary == summary_after(s0, elements_view(results@)),
        decreases n - i,
    {
        let key = before.key_at(i);
        let old_val = before.value_at(i);
        proof {
            lemma_common_step::<T>(before@, after@, keep_unchanged, i as int);
        }
        let ghost prev = elements_view(results@);
        if let Some(new_val) = after.get(key.as_str()) {
            if old_val.same(new_val) {
                if keep_unchanged {
                    push_counted(&mut results, simple_diff(key.clone(), DiffStatus::Unchanged), summary, Ghost(s0));
                }
            } else {
                let (prop_diffs, children) = old_val.diff(new_val);
                let e = ElementDiff {
                    name: key.clone(),
                    status: DiffStatus::Modified,
                    property_diffs: prop_diffs,
                    children,
                };
                proof {
                    lemma_element_view(e);
                }
                push_counted(&mut results, e, summary, Ghost(s0));
            }
        }
        i = i + 1;
    }
    let ghost upto_common = elements_view(results@);
    // Added: names in `after` but not in `before`.
    let m = after.len();
    let mut j: usize = 0;
    while j < m
        invariant
            m == after@.len(),
            0 <= j <= m,
            elements_view(results@) == upto_common + only_in(after@.take(j as int), before@, DiffStatus::Added),
            *summary == summary_after(s0, elements_view(results@)),
        decreases m - j,
    {
        let key = after.key_at(j);
        proof {
            lemma_only_in_step(after@, before@, DiffStatus::Added, j as int);
        }
        if !before.contains_key(key.as_str()) {
            push_counted(&mut results, simple_diff(key.clone(), DiffStatus::Added), summary, Ghost(s0));
        }
        j = j + 1;
    }
    assert(after@.take(m as int) =~= after@);
    results
}

/// Two maps with the same entries.
pub fn maps_equal<T: Compared>(a: &KeyedMap<T>, b: &KeyedMap<T>) -> (r: bool)
    ensures
        r == (a@ == b@),
{
    let n = a.len();
    if n != b.len() {
        return false;
    }
    let mut i: usize = 0;
    while i < n
        invariant
            n == a@.len(),
            n == b@.len(),
            0 <= i <= n,
            forall|j: int| 0 <= j < i ==> #[trigger] a@[j] == b@[j],
        decreases n - i,
    {
        let same_key = *a.key_at(i) == *b.key_at(i);
        if !same_key || !a.value_at(i).same(b.value_at(i)) {
            return false;
        }
        i = i + 1;
    }
    assert(a@ =~= b@);
    true
}

// DTC comparison
pub open spec fn spec_dtc_props(a: DtcV, b: DtcV) -> Seq<PropertyDiffV> {
    prop_if("short_name"@, a.short_name, b.short_name) + prop_if(
        "trouble_code"@,
        decimal(a.trouble_code as nat),
        decimal(b.trouble_code as nat),
    ) + prop_if("display_trouble_code"@, a.display_trouble_code, b.display_trouble_code)
        + prop_if("text"@, a.text, b.text) + opt_u32_prop_if("level"@, a.level, b.level) + prop_if(
        "is_temporary"@,
        bool_text(a.is_temporary),
        bool_text(b.is_temporary),
    )
}

impl Compared for DtcSnapshot {
    open spec fn spec_diff(old: DtcV, new: DtcV) -> (Seq<PropertyDiffV>, Seq<ElementDiffV>) {
        (spec_dtc_props(old, new), Seq::empty())
    }

    fn same(&self, other: &Self) -> (r: bool) {
        DtcSnapshot::same(self, other)
    }

    fn diff(&self, other: &Self) -> (r: (Vec<PropertyDiff>, Vec<ElementDiff>)) {
        compare_dtcs(self, other)
    }
}

pub fn compare_dtcs(a: &DtcSnapshot, b: &DtcSnapshot) -> (r: (Vec<PropertyDiff>, Vec<ElementDiff>))
    ensures
        props_view(r.0@) == spec_dtc_props(a@, b@),
        elements_view(r.1@) == Seq::<ElementDiffV>::empty(),
{
    let mut diffs: Vec<PropertyDiff> = Vec::new();
    diff_text("short_name", a.short_name.as_str(), b.short_name.as_str(), &mut diffs);
    diff_u32("trouble_code", a.trouble_code, b.trouble_code, &mut diffs);
    diff_text(
        "display_trouble_code",
        a.display_trouble_code.as_str(),
        b.display_trouble_code.as_str(),
        &mut diffs,
    );
    diff_text("text", a.text.as_str(), b.text.as_str(), &mut diffs);
    diff_opt_u32("level", a.level, b.level, &mut diffs);
    diff_bool("is_temporary", a.is_temporary, b.is_temporary, &mut diffs);
    let children: Vec<ElementDiff> = Vec::new();
    proof {
        assert(props_view(diffs@) =~= spec_dtc_props(a@, b@));
        assert(elements_view(children@) =~= Seq::<ElementDiffV>::empty());
    }
    (diffs, children)
}


// Parameter lists, matched by short name
/// The map of a parameter list by short name; a later parameter replaces an
/// earlier one of the same name.
pub open spec fn params_map(ps: Seq<ParamV>) -> Seq<(Seq<char>, ParamV)>
    decreases ps.len(),
{
    if ps.len() == 0 {
        Seq::empty()
    } else {
        insert_entry(params_map(ps.drop_last()), ps.last().short_name, ps.last())
    }
}

pub open spec fn spec_param_props(a: ParamV, b: ParamV) -> Seq<PropertyDiffV> {
    prop_if("short_name"@, a.short_name, b.short_name) + prop_if("semantic"@, a.semantic, b.semantic)
        + prop_if("physical_default_value"@, a.physical_default_value, b.physical_default_value)
        + prop_if("byte_position"@, decimal(a.byte_position as nat), decimal(b.byte_position as nat))
        + prop_if("bit_position"@, decimal(a.bit_position as nat), decimal(b.bit_position as nat))
        + prop_if("param_type"@, a.param_type, b.param_type) + prop_if(
        "specific_data_summary"@,
        a.specific_data_summary,
        b.specific_data_summary,
    )
}

impl Compared for ParamSnapshot {
    open spec fn spec_diff(old: ParamV, new: ParamV) -> (Seq<PropertyDiffV>, Seq<ElementDiffV>) {
        (spec_param_props(old, new), Seq::empty())
    }

    fn same(&self, other: &Self) -> (r: bool) {
        ParamSnapshot::same(self, other)
    }

    fn diff(&self, other: &Self) -> (r: (Vec<PropertyDiff>, Vec<ElementDiff>)) {
        let children: Vec<ElementDiff> = Vec::new();
        assert(elements_view(children@) =~= Seq::<ElementDiffV>::empty());
        (compare_single_param(self, other), children)
    }
}

/// The changed parameters of two lists, matched by short name: removed,
/// modified, then added.
pub open spec fn param_elements(old: Seq<ParamV>, new: Seq<ParamV>) -> Seq<ElementDiffV> {
    entries_diff::<ParamSnapshot>(params_map(old), params_map(new), false)
}

/// The diff of two parameter lists: one element named `name` holding the
/// changed parameters, or nothing when none changed.
pub open spec fn params_list(name: Seq<char>, old: Seq<ParamV>, new: Seq<ParamV>) -> Seq<ElementDiffV> {
    category_if(name, param_elements(old, new))
}

/// Compare individual fields of two parameters.
pub fn compare_single_param(a: &ParamSnapshot, b: &ParamSnapshot) -> (r: Vec<PropertyDiff>)
    ensures
        props_view(r@) == spec_param_props(a@, b@),
{
    let mut diffs: Vec<PropertyDiff> = Vec::new();
    diff_text("short_name", a.short_name.as_str(), b.short_name.as_str(), &mut diffs);
    diff_text("semantic", a.semantic.as_str(), b.semantic.as_str(), &mut diffs);
    diff_text(
        "physical_default_value",
        a.physical_default_value.as_str(),
        b.physical_default_value.as_str(),
        &mut diffs,
    );
    diff_u32("byte_position", a.byte_position, b.byte_position, &mut diffs);
    diff_u32("bit_position", a.bit_position, b.bit_position, &mut diffs);
    diff_text("param_type", a.param_type.as_str(), b.param_type.as_str(), &mut diffs);
    diff_text(
        "specific_data_summary",
        a.specific_data_summary.as_str(),
        b.specific_data_summary.as_str(),
        &mut diffs,
    );
    assert(props_view(diffs@) =~= spec_param_props(a@, b@));
    diffs
}

/// The map of a parameter list by short name.
fn params_by_name(ps: &Vec<ParamSnapshot>) -> (r: KeyedMap<ParamSnapshot>)
    ensures
        r@ == params_map(params_view(ps@)),
{
    let mut m: KeyedMap<ParamSnapshot> = KeyedMap::new();
    let mut i: usize = 0;
    while i < ps.len()
        invariant
            0 <= i <= ps@.len(),
            m@ == params_map(params_view(ps@).take(i as int)),
        decreases ps.len() - i,
    {
        let p = ps[i].duplicate();
        proof {
            let t = params_view(ps@).take(i + 1);
            assert(t.drop_last() =~= params_view(ps@).take(i as int));
            assert(t.last() == ps@[i as int]@);
        }
        m.insert(ps[i].short_name.clone(), p);
        i = i + 1;
    }
    assert(params_view(ps@).take(ps@.len() as int) =~= params_view(ps@));
    m
}

/// The changed parameters of two lists, matched by short name.
fn compare_param_elements(a: &Vec<ParamSnapshot>, b: &Vec<ParamSnapshot>) -> (r: Vec<ElementDiff>)
    ensures
        elements_view(r@) == param_elements(params_view(a@), params_view(b@)),
{
    let old_map = params_by_name(a);
    let new_map = params_by_name(b);
    let mut discard = DiffSummary::default();
    diff_entries(&old_map, &new_map, false, &mut discard)
}

/// Compare two parameter lists by matching on short name.
///
/// The changed parameters are wrapped in one element named `name`; when no
/// parameter changed the result is empty.  When a list holds several
/// parameters of one name, the last of them is compared.
pub fn compare_params_list(name: &str, a: &Vec<ParamSnapshot>, b: &Vec<ParamSnapshot>) -> (r: Vec<
    ElementDiff,
>)
    ensures
        elements_view(r@) == params_list(name@, params_view(a@), params_view(b@)),
{
    let elements = compare_param_elements(a, b);
    if elements.len() == 0 {
        let r: Vec<ElementDiff> = Vec::new();
        assert(elements_view(r@) =~= Seq::<ElementDiffV>::empty());
        r
    } else {
        let r = vec![create_category_diff(name, elements)];
        assert(elements_view(r@) =~= seq![category(name@, param_elements(params_view(a@), params_view(b@)))]);
        r
    }
}


// Response lists, paired by position
/// `prefix[idx]`.
pub open spec fn index_label(prefix: Seq<char>, idx: nat) -> Seq<char> {
    prefix + "["@ + decimal(idx) + "]"@
}

/// The element for position `idx` of two response lists: nothing when both
/// responses are equal or both are missing.
#[verifier::opaque]
pub open spec fn response_entry(prefix: Seq<char>, old: Seq<ResponseV>, new: Seq<ResponseV>, idx: nat) -> Seq<
    ElementDiffV,
> {
    let label = index_label(prefix, idx);
    if idx < old.len() && idx < new.len() {
        if old[idx as int] == new[idx as int] {
            Seq::empty()
        } else {
            seq![
                ElementDiffV {
                    name: label,
                    status: DiffStatus::Modified,
                    property_diffs: prop_if(
                        "response_type"@,
                        old[idx as int].response_type,
                        new[idx as int].response_type,
                    ),
                    children: param_elements(old[idx as int].params, new[idx as int].params),
                },
            ]
        }
    } else if idx < new.len() {
        seq![simple(label, DiffStatus::Added)]
    } else if idx < old.len() {
        seq![simple(label, DiffStatus::Removed)]
    } else {
        Seq::empty()
    }
}

/// The elements for the first `n` positions of two response lists.
pub open spec fn response_diffs_upto(prefix: Seq<char>, old: Seq<ResponseV>, new: Seq<ResponseV>, n: nat) -> Seq<
    ElementDiffV,
>
    decreases n,
{
    if n == 0 {
        Seq::empty()
    } else {
        response_diffs_upto(prefix, old, new, (n - 1) as nat) + response_entry(prefix, old, new, (n - 1) as nat)
    }
}

/// The diff of two response lists, position by position.
pub open spec fn response_diffs(prefix: Seq<char>, old: Seq<ResponseV>, new: Seq<ResponseV>) -> Seq<ElementDiffV> {
    response_diffs_upto(prefix, old, new, if old.len() >= new.len() { old.len() } else { new.len() })
}

fn index_label_string(prefix: &str, idx: usize) -> (r: String)
    ensures
        r@ == index_label(prefix@, idx as nat),
{
    let mut label = prefix.to_owned();
    label.append("[");
    let digits = usize_to_decimal(idx);
    label.append(digits.as_str());
    label.append("]");
    label
}

/// The element for position `idx` of two response lists, if any.
fn compare_response_at(prefix: &str, a: &Vec<ResponseSnapshot>, b: &Vec<ResponseSnapshot>, idx: usize) -> (r:
    Option<ElementDiff>)
    ensures
        match r {
            Some(e) => seq![e@] == response_entry(prefix@, responses_view(a@), responses_view(b@), idx as nat),
            None => response_entry(prefix@, responses_view(a@), responses_view(b@), idx as nat)
                == Seq::<ElementDiffV>::empty(),
        },
{
    let ghost ov = responses_view(a@);
    let ghost nv = responses_view(b@);
    proof {
        reveal(response_entry);
    }
    let label = index_label_string(prefix, idx);
    if idx < a.len() && idx < b.len() {
        if a[idx].same(&b[idx]) {
            return None;
        }
        let mut diffs: Vec<PropertyDiff> = Vec::new();
        diff_text("response_type", a[idx].response_type.as_str(), b[idx].response_type.as_str(), &mut diffs);
        // The parameter diffs sit directly under the response.
        let inner = compare_param_elements(&a[idx].params, &b[idx].params);
        let e = ElementDiff { name: label, status: DiffStatus::Modified, property_diffs: diffs, children: inner };
        proof {
            lemma_element_view(e);
            assert(props_view(diffs@) =~= prop_if(
                "response_type"@,
                ov[idx as int].response_type,
                nv[idx as int].response_type,
            ));
        }
        Some(e)
    } else if idx < b.len() {
        Some(simple_diff(label, DiffStatus::Added))
    } else if idx < a.len() {
        Some(simple_diff(label, DiffStatus::Removed))
    } else {
        None
    }
}

/// Compare two response lists by position: responses have no stable key.
pub fn compare_response_lists(prefix: &str, a: &Vec<ResponseSnapshot>, b: &Vec<ResponseSnapshot>) -> (r: Vec<
    ElementDiff,
>)
    ensures
        elements_view(r@) == response_diffs(prefix@, responses_view(a@), responses_view(b@)),
{
    let ghost ov = responses_view(a@);
    let ghost nv = responses_view(b@);
    let mut children: Vec<ElementDiff> = Vec::new();
    let max_len = if a.len() >= b.len() {
        a.len()
    } else {
        b.len()
    };
    proof {
        assert(elements_view(children@) =~= Seq::<ElementDiffV>::empty());
    }
    let mut idx: usize = 0;
    while idx < max_len
        invariant
            0 <= idx <= max_len,
            max_len == if ov.len() >= nv.len() { ov.len() } else { nv.len() },
            ov == responses_view(a@),
            nv == responses_view(b@),
            elements_view(children@) == response_diffs_upto(prefix@, ov, nv, idx as nat),
        decreases max_len - idx,
    {
        let ghost before = elements_view(children@);
        let ghost entry = response_entry(prefix@, ov, nv, idx as nat);
        assert(response_diffs_upto(prefix@, ov, nv, (idx + 1) as nat) == before + entry);
        match compare_response_at(prefix, a, b, idx) {
            Some(e) => {
                let ghost pre = children@;
                children.push(e);
                proof {
                    lemma_elements_view_push(pre, e);
                }
            },
            None => {
                assert(before + entry =~= before);
            },
        }
        idx = idx + 1;
    }
    children
}


// DiagComm comparison
pub open spec fn spec_audience_props(a: AudienceSnapshot, b: AudienceSnapshot) -> Seq<PropertyDiffV> {
    prop_if("is_supplier"@, bool_text(a.is_supplier), bool_text(b.is_supplier)) + prop_if(
        "is_development"@,
        bool_text(a.is_development),
        bool_text(b.is_development),
    ) + prop_if("is_manufacturing"@, bool_text(a.is_manufacturing), bool_text(b.is_manufacturing))
        + prop_if("is_after_sales"@, bool_text(a.is_after_sales), bool_text(b.is_after_sales))
        + prop_if("is_after_market"@, bool_text(a.is_after_market), bool_text(b.is_after_market))
}

/// The element for the audiences of two diag comms, if they differ.
pub open spec fn audience_children(a: Option<AudienceSnapshot>, b: Option<AudienceSnapshot>) -> Seq<
    ElementDiffV,
> {
    match (a, b) {
        (Some(x), Some(y)) => if x == y {
            Seq::empty()
        } else {
            seq![
                ElementDiffV {
                    name: "Audience"@,
                    status: DiffStatus::Modified,
                    property_diffs: spec_audience_props(x, y),
                    children: Seq::empty(),
                },
            ]
        },
        (None, Some(_)) => seq![simple("Audience"@, DiffStatus::Added)],
        (Some(_), None) => seq![simple("Audience"@, DiffStatus::Removed)],
        (None, None) => Seq::empty(),
    }
}

pub open spec fn spec_comm_props(a: DiagCommV, b: DiagCommV) -> Seq<PropertyDiffV> {
    prop_if("short_name"@, a.short_name, b.short_name) + prop_if("long_name"@, a.long_name, b.long_name)
        + prop_if("semantic"@, a.semantic, b.semantic) + prop_if(
        "diag_class_type"@,
        a.diag_class_type,
        b.diag_class_type,
    ) + list_prop_if("funct_classes"@, a.funct_classes, b.funct_classes) + prop_if(
        "is_mandatory"@,
        bool_text(a.is_mandatory),
        bool_text(b.is_mandatory),
    ) + prop_if("is_executable"@, bool_text(a.is_executable), bool_text(b.is_executable)) + prop_if(
        "is_final"@,
        bool_text(a.is_final),
        bool_text(b.is_final),
    )
}

/// Compare optional audiences: the element for them goes to `children`.
fn compare_audience(
    a: Option<&AudienceSnapshot>,
    b: Option<&AudienceSnapshot>,
    children: &mut Vec<ElementDiff>,
)
    ensures
        elements_view(final(children)@) == elements_view(old(children)@) + audience_children(
            match a {
                Some(x) => Some(*x),
                None => None,
            },
            match b {
                Some(x) => Some(*x),
                None => None,
            },
        ),
{
    let ghost before = children@;
    match (a, b) {
        (Some(x), Some(y)) => {
            if *x != *y {
                let mut aud_diffs: Vec<PropertyDiff> = Vec::new();
                diff_bool("is_supplier", x.is_supplier, y.is_supplier, &mut aud_diffs);
                diff_bool("is_development", x.is_development, y.is_development, &mut aud_diffs);
                diff_bool("is_manufacturing", x.is_manufacturing, y.is_manufacturing, &mut aud_diffs);
                diff_bool("is_after_sales", x.is_after_sales, y.is_after_sales, &mut aud_diffs);
                diff_bool("is_after_market", x.is_after_market, y.is_after_market, &mut aud_diffs);
                let e = ElementDiff {
                    name: "Audience".to_owned(),
                    status: DiffStatus::Modified,
                    property_diffs: aud_diffs,
                    children: Vec::new(),
                };
                proof {
                    lemma_element_view(e);
                    assert(props_view(aud_diffs@) =~= spec_audience_props(*x, *y));
                    assert(elements_view(e.children@) =~= Seq::<ElementDiffV>::empty());
                }
                children.push(e);
                proof {
                    lemma_elements_view_push(before, e);
                }
            } else {
                assert(elements_view(before) + Seq::<ElementDiffV>::empty() =~= elements_view(before));
            }
        },
        (None, Some(_)) => {
            let e = simple_diff("Audience".to_owned(), DiffStatus::Added);
            children.push(e);
            proof {
                lemma_elements_view_push(before, e);
            }
        },
        (Some(_), None) => {
            let e = simple_diff("Audience".to_owned(), DiffStatus::Removed);
            children.push(e);
            proof {
                lemma_elements_view_push(before, e);
            }
        },
        (None, None) => {
            assert(elements_view(before) + Seq::<ElementDiffV>::empty() =~= elements_view(before));
        },
    }
}

/// Property and child diffs of two diag comms.
pub fn compare_diag_comms(a: &DiagCommSnapshot, b: &DiagCommSnapshot) -> (r: (Vec<PropertyDiff>, Vec<ElementDiff>))
    ensures
        props_view(r.0@) == spec_comm_props(a@, b@),
        elements_view(r.1@) == audience_children(a@.audience, b@.audience),
{
    let mut diffs: Vec<PropertyDiff> = Vec::new();
    diff_text("short_name", a.short_name.as_str(), b.short_name.as_str(), &mut diffs);
    diff_text("long_name", a.long_name.as_str(), b.long_name.as_str(), &mut diffs);
    diff_text("semantic", a.semantic.as_str(), b.semantic.as_str(), &mut diffs);
    diff_text("diag_class_type", a.diag_class_type.as_str(), b.diag_class_type.as_str(), &mut diffs);
    diff_string_vec("funct_classes", &a.funct_classes, &b.funct_classes, &mut diffs);
    diff_bool("is_mandatory", a.is_mandatory, b.is_mandatory, &mut diffs);
    diff_bool("is_executable", a.is_executable, b.is_executable, &mut diffs);
    diff_bool("is_final", a.is_final, b.is_final, &mut diffs);
    let mut children: Vec<ElementDiff> = Vec::new();
    proof {
        assert(elements_view(children@) =~= Seq::<ElementDiffV>::empty());
    }
    compare_audience(a.audience.as_ref(), b.audience.as_ref(), &mut children);
    assert(props_view(diffs@) =~= spec_comm_props(a@, b@));
    assert(elements_view(children@) =~= audience_children(a@.audience, b@.audience));
    (diffs, children)
}

/// The "DiagComm" element when two diag comms differ in a property or an
/// audience, nothing otherwise.
pub open spec fn comm_child(a: DiagCommV, b: DiagCommV) -> Seq<ElementDiffV> {
    let props = spec_comm_props(a, b);
    let children = audience_children(a.audience, b.audience);
    if props.len() == 0 && children.len() == 0 {
        Seq::empty()
    } else {
        seq![
            ElementDiffV {
                name: "DiagComm"@,
                status: DiffStatus::Modified,
                property_diffs: props,
                children,
            },
        ]
    }
}

/// Push the "DiagComm" element for two diag comms when they differ.
fn push_comm_child(a: &DiagCommSnapshot, b: &DiagCommSnapshot, children: &mut Vec<ElementDiff>)
    ensures
        elements_view(final(children)@) == elements_view(old(children)@) + comm_child(a@, b@),
{
    let ghost before = children@;
    let (comm_props, comm_children) = compare_diag_comms(a, b);
    if comm_props.len() != 0 || comm_children.len() != 0 {
        let e = ElementDiff {
            name: "DiagComm".to_owned(),
            status: DiffStatus::Modified,
            property_diffs: comm_props,
            children: comm_children,
        };
        proof {
            lemma_element_view(e);
        }
        children.push(e);
        proof {
            lemma_elements_view_push(before, e);
        }
    } else {
        assert(elements_view(before) + comm_child(a@, b@) =~= elements_view(before));
    }
}


// DiagService comparison
pub open spec fn spec_service_props(a: DiagServiceV, b: DiagServiceV) -> Seq<PropertyDiffV> {
    (if a.request_id != b.request_id {
        seq![prop("request_id"@, request_id_text(a.request_id), request_id_text(b.request_id))]
    } else {
        Seq::empty()
    }) + (if a.request_sub_function != b.request_sub_function {
        seq![
            prop(
                "request_sub_function"@,
                sub_function_text(a.request_sub_function),
                sub_function_text(b.request_sub_function),
            ),
        ]
    } else {
        Seq::empty()
    }) + prop_if("addressing"@, a.addressing, b.addressing) + prop_if(
        "transmission_mode"@,
        a.transmission_mode,
        b.transmission_mode,
    ) + prop_if("is_cyclic"@, bool_text(a.is_cyclic), bool_text(b.is_cyclic)) + prop_if(
        "is_multiple"@,
        bool_text(a.is_multiple),
        bool_text(b.is_multiple),
    )
}

/// The elements for the requests of two services.
pub open spec fn request_children(a: Option<RequestV>, b: Option<RequestV>) -> Seq<ElementDiffV> {
    match (a, b) {
        (Some(x), Some(y)) => if x == y {
            Seq::empty()
        } else {
            params_list("Request"@, x.params, y.params)
        },
        (None, Some(_)) => seq![simple("Request"@, DiffStatus::Added)],
        (Some(_), None) => seq![simple("Request"@, DiffStatus::Removed)],
        (None, None) => Seq::empty(),
    }
}

pub open spec fn spec_service_children(a: DiagServiceV, b: DiagServiceV) -> Seq<ElementDiffV> {
    comm_child(a.diag_comm, b.diag_comm) + request_children(a.request, b.request) + response_diffs(
        "PosResponse"@,
        a.pos_responses,
        b.pos_responses,
    ) + response_diffs("NegResponse"@, a.neg_responses, b.neg_responses)
}

fn request_id_string(o: Option<u8>) -> (r: String)
    ensures
        r@ == request_id_text(o),
{
    match o {
        Some(id) => {
            let mut t = "0x".to_owned();
            let digits = hex_padded(id as u64, 2);
            t.append(digits.as_str());
            t
        },
        None => "None".to_owned(),
    }
}

fn sub_function_string(o: Option<(u32, u32)>) -> (r: String)
    ensures
        r@ == sub_function_text(o),
{
    match o {
        Some((sub_fn, bit_len)) => {
            let mut t = "0x".to_owned();
            let digits = hex_padded(sub_fn as u64, 0);
            t.append(digits.as_str());
            t.append(" (");
            let bits = u64_to_decimal(bit_len as u64);
            t.append(bits.as_str());
            t.append(" bits)");
            t
        },
        None => "None".to_owned(),
    }
}

fn service_props(a: &DiagServiceSnapshot, b: &DiagServiceSnapshot) -> (r: Vec<PropertyDiff>)
    ensures
        props_view(r@) == spec_service_props(a@, b@),
{
    let mut diffs: Vec<PropertyDiff> = Vec::new();
    if a.request_id != b.request_id {
        diffs.push(make_prop("request_id", request_id_string(a.request_id), request_id_string(b.request_id)));
    }
    let ghost p1 = props_view(diffs@);
    if a.request_sub_function != b.request_sub_function {
        diffs.push(
            make_prop(
                "request_sub_function",
                sub_function_string(a.request_sub_function),
                sub_function_string(b.request_sub_function),
            ),
        );
    }
    let ghost p2 = props_view(diffs@);
    diff_text("addressing", a.addressing.as_str(), b.addressing.as_str(), &mut diffs);
    diff_text("transmission_mode", a.transmission_mode.as_str(), b.transmission_mode.as_str(), &mut diffs);
    diff_bool("is_cyclic", a.is_cyclic, b.is_cyclic, &mut diffs);
    diff_bool("is_multiple", a.is_multiple, b.is_multiple, &mut diffs);
    proof {
        let first = if a@.request_id != b@.request_id {
            seq![prop("request_id"@, request_id_text(a@.request_id), request_id_text(b@.request_id))]
        } else {
            Seq::empty()
        };
        assert(p1 =~= first);
    }
    assert(props_view(diffs@) =~= spec_service_props(a@, b@));
    diffs
}

/// Push the elements for the requests of two services.
fn push_request_children(a: &Option<RequestSnapshot>, b: &Option<RequestSnapshot>, children: &mut Vec<ElementDiff>)
    ensures
        elements_view(final(children)@) == elements_view(old(children)@) + request_children(
            match a {
                Some(x) => Some(x@),
                None => None,
            },
            match b {
                Some(x) => Some(x@),
                None => None,
            },
        ),
{
    let ghost before = children@;
    match (a, b) {
        (Some(x), Some(y)) => {
            if !x.same(y) {
                let param_diffs = compare_params_list("Request", &x.params, &y.params);
                append_elements(children, param_diffs);
            } else {
                assert(elements_view(before) + Seq::<ElementDiffV>::empty() =~= elements_view(before));
            }
        },
        (None, Some(_)) => {
            let e = simple_diff("Request".to_owned(), DiffStatus::Added);
            children.push(e);
            proof {
                lemma_elements_view_push(before, e);
            }
        },
        (Some(_), None) => {
            let e = simple_diff("Request".to_owned(), DiffStatus::Removed);
            children.push(e);
            proof {
                lemma_elements_view_push(before, e);
            }
        },
        (None, None) => {
            assert(elements_view(before) + Seq::<ElementDiffV>::empty() =~= elements_view(before));
        },
    }
}

/// Property and child diffs of two services.
pub fn compare_services(a: &DiagServiceSnapshot, b: &DiagServiceSnapshot) -> (r: (Vec<PropertyDiff>, Vec<ElementDiff>))
    ensures
        props_view(r.0@) == spec_service_props(a@, b@),
        elements_view(r.1@) == spec_service_children(a@, b@),
{
    let diffs = service_props(a, b);
    let mut children: Vec<ElementDiff> = Vec::new();
    proof {
        assert(elements_view(children@) =~= Seq::<ElementDiffV>::empty());
    }
    push_comm_child(&a.diag_comm, &b.diag_comm, &mut children);
    push_request_children(&a.request, &b.request, &mut children);
    let pos = compare_response_lists("PosResponse", &a.pos_responses, &b.pos_responses);
    append_elements(&mut children, pos);
    let neg = compare_response_lists("NegResponse", &a.neg_responses, &b.neg_responses);
    append_elements(&mut children, neg);
    assert(elements_view(children@) =~= spec_service_children(a@, b@));
    (diffs, children)
}

impl Compared for DiagServiceSnapshot {
    open spec fn spec_diff(old: DiagServiceV, new: DiagServiceV) -> (Seq<PropertyDiffV>, Seq<ElementDiffV>) {
        (spec_service_props(old, new), spec_service_children(old, new))
    }

    fn same(&self, other: &Self) -> (r: bool) {
        DiagServiceSnapshot::same(self, other)
    }

    fn diff(&self, other: &Self) -> (r: (Vec<PropertyDiff>, Vec<ElementDiff>)) {
        compare_services(self, other)
    }
}


// StateChart comparison
pub open spec fn spec_chart_props(a: StateChartV, b: StateChartV) -> Seq<PropertyDiffV> {
    prop_if("short_name"@, a.short_name, b.short_name) + prop_if("semantic"@, a.semantic, b.semantic)
        + prop_if("start_state"@, a.start_state, b.start_state) + list_prop_if(
        "states"@,
        a.states,
        b.states,
    ) + list_prop_if("transitions"@, a.transitions, b.transitions)
}

/// Property diffs of two state charts (they have no child diffs).
pub fn compare_state_charts(a: &StateChartSnapshot, b: &StateChartSnapshot) -> (r: (Vec<PropertyDiff>, Vec<
    ElementDiff,
>))
    ensures
        props_view(r.0@) == spec_chart_props(a@, b@),
        elements_view(r.1@) == Seq::<ElementDiffV>::empty(),
{
    let mut diffs: Vec<PropertyDiff> = Vec::new();
    diff_text("short_name", a.short_name.as_str(), b.short_name.as_str(), &mut diffs);
    diff_text("semantic", a.semantic.as_str(), b.semantic.as_str(), &mut diffs);
    diff_text("start_state", a.start_state.as_str(), b.start_state.as_str(), &mut diffs);
    diff_string_vec("states", &a.states, &b.states, &mut diffs);
    diff_string_vec("transitions", &a.transitions, &b.transitions, &mut diffs);
    let children: Vec<ElementDiff> = Vec::new();
    assert(props_view(diffs@) =~= spec_chart_props(a@, b@));
    assert(elements_view(children@) =~= Seq::<ElementDiffV>::empty());
    (diffs, children)
}

impl Compared for StateChartSnapshot {
    open spec fn spec_diff(old: StateChartV, new: StateChartV) -> (Seq<PropertyDiffV>, Seq<ElementDiffV>) {
        (spec_chart_props(old, new), Seq::empty())
    }

    fn same(&self, other: &Self) -> (r: bool) {
        StateChartSnapshot::same(self, other)
    }

    fn diff(&self, other: &Self) -> (r: (Vec<PropertyDiff>, Vec<ElementDiff>)) {
        compare_state_charts(self, other)
    }
}

// SingleEcuJob comparison
pub open spec fn spec_job_props(a: SingleEcuJobV, b: SingleEcuJobV) -> Seq<PropertyDiffV> {
    list_prop_if("input_params"@, a.input_params, b.input_params) + list_prop_if(
        "output_params"@,
        a.output_params,
        b.output_params,
    ) + list_prop_if("neg_output_params"@, a.neg_output_params, b.neg_output_params)
}

/// Property and child diffs of two single-ECU jobs.
pub fn compare_single_ecu_jobs(a: &SingleEcuJobSnapshot, b: &SingleEcuJobSnapshot) -> (r: (Vec<PropertyDiff>, Vec<
    ElementDiff,
>))
    ensures
        props_view(r.0@) == spec_job_props(a@, b@),
        elements_view(r.1@) == comm_child(a@.diag_comm, b@.diag_comm),
{
    let mut diffs: Vec<PropertyDiff> = Vec::new();
    diff_string_vec("input_params", &a.input_params, &b.input_params, &mut diffs);
    diff_string_vec("output_params", &a.output_params, &b.output_params, &mut diffs);
    diff_string_vec("neg_output_params", &a.neg_output_params, &b.neg_output_params, &mut diffs);
    let mut children: Vec<ElementDiff> = Vec::new();
    proof {
        assert(elements_view(children@) =~= Seq::<ElementDiffV>::empty());
    }
    push_comm_child(&a.diag_comm, &b.diag_comm, &mut children);
    assert(props_view(diffs@) =~= spec_job_props(a@, b@));
    assert(elements_view(children@) =~= comm_child(a@.diag_comm, b@.diag_comm));
    (diffs, children)
}

impl Compared for SingleEcuJobSnapshot {
    open spec fn spec_diff(old: SingleEcuJobV, new: SingleEcuJobV) -> (Seq<PropertyDiffV>, Seq<ElementDiffV>) {
        (spec_job_props(old, new), comm_child(old.diag_comm, new.diag_comm))
    }

    fn same(&self, other: &Self) -> (r: bool) {
        SingleEcuJobSnapshot::same(self, other)
    }

    fn diff(&self, other: &Self) -> (r: (Vec<PropertyDiff>, Vec<ElementDiff>)) {
        compare_single_ecu_jobs(self, other)
    }
}

// DiagLayer comparison
pub open spec fn spec_layer_props(a: DiagLayerV, b: DiagLayerV) -> Seq<PropertyDiffV> {
    prop_if("short_name"@, a.short_name, b.short_name) + prop_if("long_name"@, a.long_name, b.long_name)
        + list_prop_if("funct_classes"@, a.funct_classes, b.funct_classes)
}

/// One category element per kind of child that has element diffs.
pub open spec fn spec_layer_children(a: DiagLayerV, b: DiagLayerV) -> Seq<ElementDiffV> {
    category_if("Services"@, map_diff::<DiagServiceSnapshot>(a.services, b.services)) + category_if(
        "SingleEcuJobs"@,
        map_diff::<SingleEcuJobSnapshot>(a.single_ecu_jobs, b.single_ecu_jobs),
    ) + category_if("StateCharts"@, map_diff::<StateChartSnapshot>(a.state_charts, b.state_charts))
}

/// Push a category element for `diffs` when there are any.
fn push_category(name: &str, diffs: Vec<ElementDiff>, children: &mut Vec<ElementDiff>)
    ensures
        elements_view(final(children)@) == elements_view(old(children)@) + category_if(
            name@,
            elements_view(diffs@),
        ),
{
    let ghost before = children@;
    if diffs.len() != 0 {
        let e = create_category_diff(name, diffs);
        children.push(e);
        proof {
            lemma_elements_view_push(before, e);
        }
    } else {
        assert(elements_view(before) + category_if(name@, elements_view(diffs@)) =~= elements_view(
            before,
        ));
    }
}

/// Property and child diffs of two diagnostic layers.
pub fn compare_diag_layers(a: &DiagLayerSnapshot, b: &DiagLayerSnapshot) -> (r: (Vec<PropertyDiff>, Vec<
    ElementDiff,
>))
    ensures
        props_view(r.0@) == spec_layer_props(a@, b@),
        elements_view(r.1@) == spec_layer_children(a@, b@),
{
    let mut diffs: Vec<PropertyDiff> = Vec::new();
    diff_text("short_name", a.short_name.as_str(), b.short_name.as_str(), &mut diffs);
    diff_text("long_name", a.long_name.as_str(), b.long_name.as_str(), &mut diffs);
    diff_string_vec("funct_classes", &a.funct_classes, &b.funct_classes, &mut diffs);
    let mut children: Vec<ElementDiff> = Vec::new();
    proof {
        assert(elements_view(children@) =~= Seq::<ElementDiffV>::empty());
    }
    // The counts of these nested levels are not part of the summary.
    let mut discard = DiffSummary::default();
    let service_diffs = compare_maps(&a.services, &b.services, &mut discard);
    push_category("Services", service_diffs, &mut children);
    let mut discard2 = DiffSummary::default();
    let job_diffs = compare_maps(&a.single_ecu_jobs, &b.single_ecu_jobs, &mut discard2);
    push_category("SingleEcuJobs", job_diffs, &mut children);
    let mut discard3 = DiffSummary::default();
    let chart_diffs = compare_maps(&a.state_charts, &b.state_charts, &mut discard3);
    push_category("StateCharts", chart_diffs, &mut children);
    assert(props_view(diffs@) =~= spec_layer_props(a@, b@));
    assert(elements_view(children@) =~= spec_layer_children(a@, b@));
    (diffs, children)
}

impl DiagLayerSnapshot {
    /// Same view.
    pub fn same(&self, other: &Self) -> (r: bool)
        ensures
            r == (self@ == other@),
    {
        self.short_name == other.short_name && self.long_name == other.long_name && maps_equal(
            &self.services,
            &other.services,
        ) && maps_equal(&self.single_ecu_jobs, &other.single_ecu_jobs) && maps_equal(
            &self.state_charts,
            &other.state_charts,
        ) && strings_equal(&self.funct_classes, &other.funct_classes)
    }
}

// Variant and functional group comparison
pub open spec fn spec_variant_props(a: VariantV, b: VariantV) -> Seq<PropertyDiffV> {
    prop_if("is_base_variant"@, bool_text(a.is_base_variant), bool_text(b.is_base_variant))
        + spec_layer_props(a.diag_layer, b.diag_layer)
}

/// Property and child diffs of two variants.
pub fn compare_variants(a: &VariantSnapshot, b: &VariantSnapshot) -> (r: (Vec<PropertyDiff>, Vec<ElementDiff>))
    ensures
        props_view(r.0@) == spec_variant_props(a@, b@),
        elements_view(r.1@) == spec_layer_children(a@.diag_layer, b@.diag_layer),
{
    let mut diffs: Vec<PropertyDiff> = Vec::new();
    diff_bool("is_base_variant", a.is_base_variant, b.is_base_variant, &mut diffs);
    let (layer_props, layer_children) = compare_diag_layers(&a.diag_layer, &b.diag_layer);
    let mut layer_props = layer_props;
    diffs.append(&mut layer_props);
    assert(props_view(diffs@) =~= spec_variant_props(a@, b@));
    (diffs, layer_children)
}

impl Compared for VariantSnapshot {
    open spec fn spec_diff(old: VariantV, new: VariantV) -> (Seq<PropertyDiffV>, Seq<ElementDiffV>) {
        (spec_variant_props(old, new), spec_layer_children(old.diag_layer, new.diag_layer))
    }

    fn same(&self, other: &Self) -> (r: bool) {
        self.is_base_variant == other.is_base_variant && self.diag_layer.same(&other.diag_layer)
    }

    fn diff(&self, other: &Self) -> (r: (Vec<PropertyDiff>, Vec<ElementDiff>)) {
        compare_variants(self, other)
    }
}

/// Property and child diffs of two functional groups: those of their layers.
pub fn compare_functional_groups(a: &FunctionalGroupSnapshot, b: &FunctionalGroupSnapshot) -> (r: (Vec<
    PropertyDiff,
>, Vec<ElementDiff>))
    ensures
        props_view(r.0@) == spec_layer_props(a@.diag_layer, b@.diag_layer),
        elements_view(r.1@) == spec_layer_children(a@.diag_layer, b@.diag_layer),
{
    compare_diag_layers(&a.diag_layer, &b.diag_layer)
}

impl Compared for FunctionalGroupSnapshot {
    open spec fn spec_diff(old: FunctionalGroupV, new: FunctionalGroupV) -> (Seq<PropertyDiffV>, Seq<ElementDiffV>) {
        (spec_layer_props(old.diag_layer, new.diag_layer), spec_layer_children(old.diag_layer, new.diag_layer))
    }

    fn same(&self, other: &Self) -> (r: bool) {
        self.diag_layer.same(&other.diag_layer)
    }

    fn diff(&self, other: &Self) -> (r: (Vec<PropertyDiff>, Vec<ElementDiff>)) {
        compare_functional_groups(self, other)
    }
}


// ECU top-level properties
pub open spec fn spec_ecu_props(a: EcuV, b: EcuV) -> Seq<PropertyDiffV> {
    prop_if("name"@, a.name, b.name) + prop_if("version"@, a.version, b.version) + prop_if(
        "revision"@,
        a.revision,
        b.revision,
    ) + if a.metadata != b.metadata {
        seq![prop("metadata"@, metadata_text(a.metadata), metadata_text(b.metadata))]
    } else {
        Seq::empty()
    }
}

/// Two metadata lists hold the same pairs.
fn metadata_equal(a: &Vec<(String, String)>, b: &Vec<(String, String)>) -> (r: bool)
    ensures
        r == (pairs_view(a@) == pairs_view(b@)),
{
    if a.len() != b.len() {
        assert(pairs_view(a@).len() != pairs_view(b@).len());
        return false;
    }
    let mut i: usize = 0;
    while i < a.len()
        invariant
            a@.len() == b@.len(),
            0 <= i <= a@.len(),
            forall|j: int| 0 <= j < i ==> #[trigger] pairs_view(a@)[j] == pairs_view(b@)[j],
        decreases a.len() - i,
    {
        if a[i].0 != b[i].0 || a[i].1 != b[i].1 {
            assert(pairs_view(a@)[i as int] != pairs_view(b@)[i as int]);
            return false;
        }
        i = i + 1;
    }
    assert(pairs_view(a@) =~= pairs_view(b@));
    true
}

/// `key=value` pairs joined with `"; "`.
fn format_metadata(m: &Vec<(String, String)>) -> (r: String)
    ensures
        r@ == metadata_text(pairs_view(m@)),
{
    let ghost parts = pairs_view(m@).map_values(|p: (Seq<char>, Seq<char>)| p.0 + "="@ + p.1);
    let mut r = String::new();
    let mut i: usize = 0;
    while i < m.len()
        invariant
            0 <= i <= m@.len(),
            parts == pairs_view(m@).map_values(|p: (Seq<char>, Seq<char>)| p.0 + "="@ + p.1),
            r@ == join(parts.subrange(0, i as int), "; "@),
        decreases m.len() - i,
    {
        if i > 0 {
            r.append("; ");
        }
        r.append(m[i].0.as_str());
        r.append("=");
        r.append(m[i].1.as_str());
        proof {
            let pre = parts.subrange(0, i + 1);
            assert(pre.drop_last() =~= parts.subrange(0, i as int));
            if i == 0 {
                assert(parts.subrange(0, 0) =~= Seq::<Seq<char>>::empty());
            }
        }
        i = i + 1;
    }
    assert(parts.subrange(0, m@.len() as int) =~= parts);
    r
}

/// Property diffs of two ECUs' own properties.
pub fn compare_ecu_properties(a: &EcuSnapshot, b: &EcuSnapshot) -> (r: Vec<PropertyDiff>)
    ensures
        props_view(r@) == spec_ecu_props(a@, b@),
{
    let mut diffs: Vec<PropertyDiff> = Vec::new();
    diff_text("name", a.name.as_str(), b.name.as_str(), &mut diffs);
    diff_text("version", a.version.as_str(), b.version.as_str(), &mut diffs);
    diff_text("revision", a.revision.as_str(), b.revision.as_str(), &mut diffs);
    let ghost before = props_view(diffs@);
    if !metadata_equal(&a.metadata, &b.metadata) {
        diffs.push(make_prop("metadata", format_metadata(&a.metadata), format_metadata(&b.metadata)));
    }
    assert(props_view(diffs@) =~= spec_ecu_props(a@, b@));
    diffs
}

// Entry point
/// The summary that counts the top-level elements of the three groups.
pub open spec fn spec_summary(
    variants: Seq<ElementDiffV>,
    functional_groups: Seq<ElementDiffV>,
    dtcs: Seq<ElementDiffV>,
) -> DiffSummary {
    summary_after(
        summary_after(
            summary_after(DiffSummary { added: 0, removed: 0, modified: 0, unchanged: 0 }, variants),
            functional_groups,
        ),
        dtcs,
    )
}

/// The diff of two ECU snapshots.
pub open spec fn spec_compare(a: EcuV, b: EcuV) -> DiffResultV {
    let variants = map_diff::<VariantSnapshot>(a.variants, b.variants);
    let functional_groups = map_diff::<FunctionalGroupSnapshot>(a.functional_groups, b.functional_groups);
    let dtcs = map_diff::<DtcSnapshot>(a.dtcs, b.dtcs);
    let s = spec_summary(variants, functional_groups, dtcs);
    DiffResultV {
        old_name: a.name,
        new_name: b.name,
        ecu_diffs: spec_ecu_props(a, b),
        variants,
        functional_groups,
        dtcs,
        summary: DiffSummaryV {
            added: s.added,
            removed: s.removed,
            modified: s.modified,
            unchanged: s.unchanged,
        },
    }
}

/// Compare two ECU snapshots.
pub fn compare(a: &EcuSnapshot, b: &EcuSnapshot) -> (r: DiffResult)
    ensures
        r@ == spec_compare(a@, b@),
{
    let ecu_diffs = compare_ecu_properties(a, b);
    let mut summary = DiffSummary::default();
    let variants = compare_maps(&a.variants, &b.variants, &mut summary);
    let functional_groups = compare_maps(&a.functional_groups, &b.functional_groups, &mut summary);
    let dtcs = compare_maps(&a.dtcs, &b.dtcs, &mut summary);
    DiffResult {
        old_name: a.name.clone(),
        new_name: b.name.clone(),
        ecu_diffs,
        variants,
        functional_groups,
        dtcs,
        summary,
    }
}


// Laws
/// Each name, as an element with `status`.
pub open spec fn all_with_status(names: Seq<Seq<char>>, status: DiffStatus) -> Seq<ElementDiffV> {
    names.map_values(|k: Seq<char>| simple(k, status))
}

proof fn lemma_only_in_self<V>(m: Seq<(Seq<char>, V)>, a: Seq<(Seq<char>, V)>, status: DiffStatus)
    requires
        forall|i: int| 0 <= i < a.len() ==> has_key(m, #[trigger] a[i].0),
    ensures
        only_in(a, m, status) == Seq::<ElementDiffV>::empty(),
    decreases a.len(),
{
    if a.len() > 0 {
        assert(has_key(m, a[a.len() - 1].0));
        lemma_only_in_self(m, a.drop_last(), status);
    }
}

proof fn lemma_common_self<T: Compared>(m: Seq<(Seq<char>, T::V)>, i: int)
    requires
        strictly_sorted(m),
        0 <= i <= m.len(),
    ensures
        common_part::<T>(m.take(i), m, true) == all_with_status(keys_of(m.take(i)), DiffStatus::Unchanged),
    decreases i,
{
    if i == 0 {
        assert(all_with_status(keys_of(m.take(0)), DiffStatus::Unchanged) =~= Seq::<ElementDiffV>::empty());
    } else {
        lemma_common_self::<T>(m, i - 1);
        lemma_common_step::<T>(m, m, true, i - 1);
        lemma_value_of_index(m, i - 1);
        assert(all_with_status(keys_of(m.take(i)), DiffStatus::Unchanged) =~= all_with_status(
            keys_of(m.take(i - 1)),
            DiffStatus::Unchanged,
        ) + seq![simple(m[i - 1].0, DiffStatus::Unchanged)]);
    }
}

proof fn lemma_value_of_present<V>(entries: Seq<(Seq<char>, V)>, k: Seq<char>)
    requires
        has_key(entries, k),
    ensures
        value_of(entries, k) is Some,
    decreases entries.len(),
{
    if entries[0].0 != k {
        let rest = entries.drop_first();
        let i = choose|i: int| 0 <= i < entries.len() && entries[i].0 == k;
        assert(rest[i - 1].0 == k);
        lemma_value_of_present(rest, k);
    }
}

proof fn lemma_sorted_drop_last<V>(a: Seq<(Seq<char>, V)>)
    requires
        strictly_sorted(a),
        a.len() > 0,
    ensures
        strictly_sorted(a.drop_last()),
        forall|k: Seq<char>| has_key(a.drop_last(), k) ==> seq_lt(k, a.last().0),
        forall|k: Seq<char>| has_key(a.drop_last(), k) ==> has_key(a, k),
{
    let d = a.drop_last();
    assert forall|i: int, j: int| 0 <= i < j < d.len() implies seq_lt(d[i].0, d[j].0) by {
        assert(d[i] == a[i] && d[j] == a[j]);
    }
    assert forall|k: Seq<char>| has_key(d, k) implies seq_lt(k, a.last().0) && has_key(a, k) by {
        let i = choose|i: int| 0 <= i < d.len() && d[i].0 == k;
        assert(d[i] == a[i]);
        assert(seq_lt(a[i].0, a[a.len() - 1].0));
    }
}

/// Elements whose names strictly increase.
pub open spec fn names_increasing(d: Seq<ElementDiffV>) -> bool {
    forall|i: int, j: int| 0 <= i < j < d.len() ==> seq_lt(d[i].name, d[j].name)
}

proof fn lemma_only_in_names<V>(a: Seq<(Seq<char>, V)>, b: Seq<(Seq<char>, V)>, st: DiffStatus)
    requires
        strictly_sorted(a),
    ensures
        forall|j: int|
            0 <= j < only_in(a, b, st).len() ==> has_key(a, #[trigger] only_in(a, b, st)[j].name) && !has_key(
                b,
                only_in(a, b, st)[j].name,
            ),
        forall|k: Seq<char>|
            has_key(a, k) && !has_key(b, k) ==> exists|j: int|
                0 <= j < only_in(a, b, st).len() && #[trigger] only_in(a, b, st)[j].name == k,
        names_increasing(only_in(a, b, st)),
    decreases a.len(),
{
    if a.len() > 0 {
        let d = a.drop_last();
        lemma_sorted_drop_last(a);
        lemma_only_in_names(d, b, st);
        let prev = only_in(d, b, st);
        let cur = only_in(a, b, st);
        let last = a.last();
        assert forall|j: int| 0 <= j < prev.len() implies has_key(a, #[trigger] prev[j].name) && seq_lt(
            prev[j].name,
            last.0,
        ) by {}
        assert forall|k: Seq<char>| has_key(a, k) && !has_key(b, k) implies exists|j: int|
            0 <= j < cur.len() && #[trigger] cur[j].name == k by {
            let i = choose|i: int| 0 <= i < a.len() && a[i].0 == k;
            if i < a.len() - 1 {
                assert(d[i].0 == k);
                let j = choose|j: int| 0 <= j < prev.len() && #[trigger] prev[j].name == k;
                assert(cur[j] == prev[j]);
            } else {
                assert(cur[prev.len() as int].name == k);
            }
        }
        assert forall|j: int| 0 <= j < cur.len() implies has_key(a, #[trigger] cur[j].name) && !has_key(
            b,
            cur[j].name,
        ) by {
            if j < prev.len() {
                assert(cur[j] == prev[j]);
            } else {
                assert(a[a.len() - 1].0 == last.0);
            }
        }
        assert forall|i: int, j: int| 0 <= i < j < cur.len() implies seq_lt(cur[i].name, cur[j].name) by {
            assert(cur[i] == prev[i]);
            if j < prev.len() {
                assert(cur[j] == prev[j]);
            }
        }
    }
}

proof fn lemma_common_names<T: Compared>(a: Seq<(Seq<char>, T::V)>, b: Seq<(Seq<char>, T::V)>)
    requires
        strictly_sorted(a),
    ensures
        forall|j: int|
            0 <= j < common_part::<T>(a, b, true).len() ==> has_key(a, #[trigger] common_part::<T>(a, b, true)[j].name)
                && has_key(b, common_part::<T>(a, b, true)[j].name),
        forall|k: Seq<char>|
            has_key(a, k) && has_key(b, k) ==> exists|j: int|
                0 <= j < common_part::<T>(a, b, true).len() && #[trigger] common_part::<T>(a, b, true)[j].name == k,
        names_increasing(common_part::<T>(a, b, true)),
    decreases a.len(),
{
    if a.len() > 0 {
        let d = a.drop_last();
        lemma_sorted_drop_last(a);
        lemma_common_names::<T>(d, b);
        let prev = common_part::<T>(d, b, true);
        let cur = common_part::<T>(a, b, true);
        let last = a.last();
        if has_key(b, last.0) {
            lemma_value_of_present(b, last.0);
        } else {
            lemma_value_of_absent(b, last.0);
        }
        assert forall|j: int| 0 <= j < prev.len() implies has_key(a, #[trigger] prev[j].name) && seq_lt(
            prev[j].name,
            last.0,
        ) by {}
        assert forall|k: Seq<char>| has_key(a, k) && has_key(b, k) implies exists|j: int|
            0 <= j < cur.len() && #[trigger] cur[j].name == k by {
            let i = choose|i: int| 0 <= i < a.len() && a[i].0 == k;
            if i < a.len() - 1 {
                assert(d[i].0 == k);
                let j = choose|j: int| 0 <= j < prev.len() && #[trigger] prev[j].name == k;
                assert(cur[j] == prev[j]);
            } else {
                assert(cur[prev.len() as int].name == k);
            }
        }
        assert forall|j: int| 0 <= j < cur.len() implies has_key(a, #[trigger] cur[j].name) && has_key(
            b,
            cur[j].name,
        ) by {
            if j < prev.len() {
                assert(cur[j] == prev[j]);
            } else {
                assert(a[a.len() - 1].0 == last.0);
            }
        }
        assert forall|i: int, j: int| 0 <= i < j < cur.len() implies seq_lt(cur[i].name, cur[j].name) by {
            assert(cur[i] == prev[i]);
            if j < prev.len() {
                assert(cur[j] == prev[j]);
            }
        }
    }
}

/// The diff of two maps names every key of either map exactly once: no two
/// elements share a name, and a name occurs exactly when it is a key of one
/// of the maps.
pub proof fn law_map_diff_names_each_key_once<T: Compared>(old: Seq<(Seq<char>, T::V)>, new: Seq<(Seq<char>, T::V)>)
    requires
        strictly_sorted(old),
        strictly_sorted(new),
    ensures
        forall|i: int, j: int|
            0 <= i < j < map_diff::<T>(old, new).len() ==> #[trigger] map_diff::<T>(old, new)[i].name
                != #[trigger] map_diff::<T>(old, new)[j].name,
        forall|k: Seq<char>|
            (has_key(old, k) || has_key(new, k)) <==> exists|i: int|
                0 <= i < map_diff::<T>(old, new).len() && #[trigger] map_diff::<T>(old, new)[i].name == k,
{
    let g1 = only_in(old, new, DiffStatus::Removed);
    let g2 = common_part::<T>(old, new, true);
    let g3 = only_in(new, old, DiffStatus::Added);
    let d = map_diff::<T>(old, new);
    lemma_only_in_names(old, new, DiffStatus::Removed);
    lemma_common_names::<T>(old, new);
    lemma_only_in_names(new, old, DiffStatus::Added);
    assert(d =~= g1 + g2 + g3);
    let n1 = g1.len() as int;
    let n2 = n1 + g2.len();
    assert forall|i: int| 0 <= i < d.len() implies (if i < n1 {
        d[i] == g1[i] && has_key(old, d[i].name) && !has_key(new, d[i].name)
    } else if i < n2 {
        d[i] == g2[i - n1] && has_key(old, d[i].name) && has_key(new, d[i].name)
    } else {
        d[i] == g3[i - n2] && has_key(new, d[i].name) && !has_key(old, d[i].name)
    }) by {}
    assert forall|i: int, j: int| 0 <= i < j < d.len() implies #[trigger] d[i].name != #[trigger] d[j].name by {
        if i < n1 && j < n1 {
            assert(seq_lt(g1[i].name, g1[j].name));
            lemma_seq_lt_irreflexive(g1[i].name);
        } else if n1 <= i && j < n2 {
            assert(seq_lt(g2[i - n1].name, g2[j - n1].name));
            lemma_seq_lt_irreflexive(g2[i - n1].name);
        } else if n2 <= i {
            assert(seq_lt(g3[i - n2].name, g3[j - n2].name));
            lemma_seq_lt_irreflexive(g3[i - n2].name);
        }
    }
    assert forall|k: Seq<char>| (has_key(old, k) || has_key(new, k)) implies exists|i: int|
        0 <= i < d.len() && #[trigger] d[i].name == k by {
        if has_key(old, k) && !has_key(new, k) {
            let j = choose|j: int| 0 <= j < g1.len() && #[trigger] g1[j].name == k;
            assert(d[j] == g1[j]);
        } else if has_key(old, k) {
            let j = choose|j: int| 0 <= j < g2.len() && #[trigger] g2[j].name == k;
            assert(d[n1 + j] == g2[j]);
        } else {
            let j = choose|j: int| 0 <= j < g3.len() && #[trigger] g3[j].name == k;
            assert(d[n2 + j] == g3[j]);
        }
    }
}

/// Comparing a map with itself lists each of its entries, in name order, as
/// unchanged.
pub proof fn law_map_diff_identical<T: Compared>(m: Seq<(Seq<char>, T::V)>)
    requires
        strictly_sorted(m),
    ensures
        map_diff::<T>(m, m) == all_with_status(keys_of(m), DiffStatus::Unchanged),
{
    assert forall|i: int| 0 <= i < m.len() implies has_key(m, #[trigger] m[i].0) by {}
    lemma_only_in_self(m, m, DiffStatus::Removed);
    lemma_only_in_self(m, m, DiffStatus::Added);
    lemma_common_self::<T>(m, m.len() as int);
    assert(m.take(m.len() as int) =~= m);
    assert(map_diff::<T>(m, m) =~= all_with_status(keys_of(m), DiffStatus::Unchanged));
}

proof fn lemma_count_all(names: Seq<Seq<char>>, status: DiffStatus, other: DiffStatus)
    requires
        other != status,
    ensures
        count_status(all_with_status(names, status), status) == names.len(),
        count_status(all_with_status(names, status), other) == 0,
    decreases names.len(),
{
    if names.len() > 0 {
        lemma_count_all(names.drop_last(), status, other);
        assert(all_with_status(names, status).drop_last() =~= all_with_status(names.drop_last(), status));
    }
}

/// `n` capped at `usize::MAX`.
pub open spec fn saturated(n: nat) -> usize {
    if n > usize::MAX {
        usize::MAX
    } else {
        n as usize
    }
}

/// Comparing an ECU snapshot with itself gives no property diffs, lists every
/// variant, functional group and DTC as unchanged, and counts them all as
/// unchanged and nothing as added, removed or modified.
pub proof fn law_compare_identical(e: EcuV)
    requires
        strictly_sorted(e.variants),
        strictly_sorted(e.functional_groups),
        strictly_sorted(e.dtcs),
    ensures
        spec_compare(e, e).ecu_diffs == Seq::<PropertyDiffV>::empty(),
        spec_compare(e, e).variants == all_with_status(keys_of(e.variants), DiffStatus::Unchanged),
        spec_compare(e, e).functional_groups == all_with_status(
            keys_of(e.functional_groups),
            DiffStatus::Unchanged,
        ),
        spec_compare(e, e).dtcs == all_with_status(keys_of(e.dtcs), DiffStatus::Unchanged),
        spec_compare(e, e).summary.added == 0,
        spec_compare(e, e).summary.removed == 0,
        spec_compare(e, e).summary.modified == 0,
        spec_compare(e, e).summary.unchanged == saturated(
            e.variants.len() + e.functional_groups.len() + e.dtcs.len(),
        ),
{
    law_map_diff_identical::<VariantSnapshot>(e.variants);
    law_map_diff_identical::<FunctionalGroupSnapshot>(e.functional_groups);
    law_map_diff_identical::<DtcSnapshot>(e.dtcs);
    let v = keys_of(e.variants);
    let f = keys_of(e.functional_groups);
    let d = keys_of(e.dtcs);
    let u = DiffStatus::Unchanged;
    lemma_count_all(v, u, DiffStatus::Added);
    lemma_count_all(v, u, DiffStatus::Removed);
    lemma_count_all(v, u, DiffStatus::Modified);
    lemma_count_all(f, u, DiffStatus::Added);
    lemma_count_all(f, u, DiffStatus::Removed);
    lemma_count_all(f, u, DiffStatus::Modified);
    lemma_count_all(d, u, DiffStatus::Added);
    lemma_count_all(d, u, DiffStatus::Removed);
    lemma_count_all(d, u, DiffStatus::Modified);
    assert(spec_compare(e, e).ecu_diffs =~= Seq::<PropertyDiffV>::empty());
}

/// Unless a count reaches `usize::MAX`, the summary holds the number of
/// top-level elements (variants, functional groups, DTCs) of each status.
pub proof fn law_summary_counts(a: EcuV, b: EcuV)
    ensures
        ({
            let r = spec_compare(a, b);
            let count = |st: DiffStatus|
                count_status(r.variants, st) + count_status(r.functional_groups, st) + count_status(
                    r.dtcs,
                    st,
                );
            &&& r.summary.added == saturated(count(DiffStatus::Added))
            &&& r.summary.removed == saturated(count(DiffStatus::Removed))
            &&& r.summary.modified == saturated(count(DiffStatus::Modified))
            &&& r.summary.unchanged == saturated(count(DiffStatus::Unchanged))
        }),
{
}

proof fn lemma_only_in_simple<V>(a: Seq<(Seq<char>, V)>, b: Seq<(Seq<char>, V)>, st: DiffStatus)
    ensures
        forall|j: int|
            0 <= j < only_in(a, b, st).len() ==> #[trigger] only_in(a, b, st)[j] == simple(only_in(a, b, st)[j].name, st),
    decreases a.len(),
{
    if a.len() > 0 {
        lemma_only_in_simple(a.drop_last(), b, st);
        let prev = only_in(a.drop_last(), b, st);
        let cur = only_in(a, b, st);
        assert forall|j: int| 0 <= j < cur.len() implies #[trigger] cur[j] == simple(cur[j].name, st) by {
            if j < prev.len() {
                assert(cur[j] == prev[j]);
            }
        }
    }
}

proof fn lemma_common_values<T: Compared>(a: Seq<(Seq<char>, T::V)>, b: Seq<(Seq<char>, T::V)>)
    requires
        strictly_sorted(a),
    ensures
        forall|j: int|
            0 <= j < common_part::<T>(a, b, true).len() ==> #[trigger] common_part::<T>(a, b, true)[j]
                == common_element::<T>(
                common_part::<T>(a, b, true)[j].name,
                value_of(a, common_part::<T>(a, b, true)[j].name)->Some_0,
                value_of(b, common_part::<T>(a, b, true)[j].name)->Some_0,
            ),
    decreases a.len(),
{
    if a.len() > 0 {
        let d = a.drop_last();
        lemma_sorted_drop_last(a);
        lemma_common_values::<T>(d, b);
        lemma_common_names::<T>(d, b);
        let prev = common_part::<T>(d, b, true);
        let cur = common_part::<T>(a, b, true);
        let last = a.last();
        lemma_value_of_index(a, a.len() - 1);
        assert forall|j: int| 0 <= j < cur.len() implies #[trigger] cur[j] == common_element::<T>(
            cur[j].name,
            value_of(a, cur[j].name)->Some_0,
            value_of(b, cur[j].name)->Some_0,
        ) by {
            if j < prev.len() {
                assert(cur[j] == prev[j]);
                let k = prev[j].name;
                assert(has_key(d, k));
                let i = choose|i: int| 0 <= i < d.len() && d[i].0 == k;
                lemma_value_of_index(d, i);
                lemma_value_of_index(a, i);
                assert(a[i] == d[i]);
            } else {
                assert(a[a.len() - 1] == last);
            }
        }
    }
}

/// The diff of two maps in three groups, each in name order: first the keys
/// only the old map has, each Removed with no further detail; then the keys
/// both have, each Unchanged when the two values are equal and Modified with
/// their differences otherwise; then the keys only the new map has, each
/// Added with no further detail.
pub proof fn law_map_diff_groups<T: Compared>(old: Seq<(Seq<char>, T::V)>, new: Seq<(Seq<char>, T::V)>)
    requires
        strictly_sorted(old),
        strictly_sorted(new),
    ensures
        ({
            let d = map_diff::<T>(old, new);
            let n1 = only_in(old, new, DiffStatus::Removed).len() as int;
            let n2 = n1 + common_part::<T>(old, new, true).len();
            &&& n1 <= n2 <= d.len()
            &&& forall|i: int|
                0 <= i < n1 ==> #[trigger] d[i] == simple(d[i].name, DiffStatus::Removed) && has_key(old, d[i].name)
                    && !has_key(new, d[i].name)
            &&& forall|i: int|
                n1 <= i < n2 ==> has_key(old, (#[trigger] d[i]).name) && has_key(new, d[i].name) && d[i]
                    == common_element::<T>(
                    d[i].name,
                    value_of(old, d[i].name)->Some_0,
                    value_of(new, d[i].name)->Some_0,
                )
            &&& forall|i: int|
                n2 <= i < d.len() ==> #[trigger] d[i] == simple(d[i].name, DiffStatus::Added) && has_key(new, d[i].name)
                    && !has_key(old, d[i].name)
            &&& forall|i: int, j: int|
                0 <= i < j < d.len() && (j < n1 || (n1 <= i && j < n2) || n2 <= i) ==> seq_lt(
                    #[trigger] d[i].name,
                    #[trigger] d[j].name,
                )
        }),
{
    let g1 = only_in(old, new, DiffStatus::Removed);
    let g2 = common_part::<T>(old, new, true);
    let g3 = only_in(new, old, DiffStatus::Added);
    let d = map_diff::<T>(old, new);
    lemma_only_in_names(old, new, DiffStatus::Removed);
    lemma_common_names::<T>(old, new);
    lemma_only_in_names(new, old, DiffStatus::Added);
    lemma_only_in_simple(old, new, DiffStatus::Removed);
    lemma_only_in_simple(new, old, DiffStatus::Added);
    lemma_common_values::<T>(old, new);
    assert(d =~= g1 + g2 + g3);
    let n1 = g1.len() as int;
    let n2 = n1 + g2.len();
    assert forall|i: int| 0 <= i < d.len() implies (if i < n1 {
        d[i] == g1[i]
    } else if i < n2 {
        d[i] == g2[i - n1]
    } else {
        d[i] == g3[i - n2]
    }) by {}
}

/// The number of elements with `status` over the three lists of a diff.
pub open spec fn status_total(r: DiffResultV, status: DiffStatus) -> nat {
    count_status(r.variants, status) + count_status(r.functional_groups, status) + count_status(r.dtcs, status)
}

/// The summary of a comparison counts the elements of each status over its
/// variants, functional groups and DTCs (while the counts fit a `usize`),
/// and the result names the two ECUs compared.
pub proof fn law_compare_summary(a: EcuV, b: EcuV)
    requires
        status_total(spec_compare(a, b), DiffStatus::Added) <= usize::MAX,
        status_total(spec_compare(a, b), DiffStatus::Removed) <= usize::MAX,
        status_total(spec_compare(a, b), DiffStatus::Modified) <= usize::MAX,
        status_total(spec_compare(a, b), DiffStatus::Unchanged) <= usize::MAX,
    ensures
        spec_compare(a, b).summary.added == status_total(spec_compare(a, b), DiffStatus::Added),
        spec_compare(a, b).summary.removed == status_total(spec_compare(a, b), DiffStatus::Removed),
        spec_compare(a, b).summary.modified == status_total(spec_compare(a, b), DiffStatus::Modified),
        spec_compare(a, b).summary.unchanged == status_total(spec_compare(a, b), DiffStatus::Unchanged),
        spec_compare(a, b).old_name == a.name,
        spec_compare(a, b).new_name == b.name,
{
}

/// Keys that `m` lacks.
pub open spec fn absent_in<V>(m: Seq<(Seq<char>, V)>) -> spec_fn(Seq<char>) -> bool {
    |k: Seq<char>| !has_key(m, k)
}

/// Keys that `m` has.
pub open spec fn present_in<V>(m: Seq<(Seq<char>, V)>) -> spec_fn(Seq<char>) -> bool {
    |k: Seq<char>| has_key(m, k)
}

pub open spec fn element_names(d: Seq<ElementDiffV>) -> Seq<Seq<char>> {
    d.map_values(|e: ElementDiffV| e.name)
}

proof fn lemma_only_in_keys<V>(a: Seq<(Seq<char>, V)>, b: Seq<(Seq<char>, V)>, st: DiffStatus)
    ensures
        element_names(only_in(a, b, st)) == keys_of(a).filter(absent_in(b)),
    decreases a.len(),
{
    let f = absent_in(b);
    if a.len() == 0 {
        assert(keys_of(a).filter(f) =~= Seq::<Seq<char>>::empty());
        assert(element_names(only_in(a, b, st)) =~= Seq::<Seq<char>>::empty());
    } else {
        let p = a.drop_last();
        lemma_only_in_keys(p, b, st);
        assert(keys_of(a) =~= keys_of(p).push(a.last().0));
        keys_of(p).lemma_filter_push(a.last().0, f);
        assert(element_names(only_in(a, b, st)) =~= keys_of(a).filter(f));
    }
}

proof fn lemma_common_keys<T: Compared>(a: Seq<(Seq<char>, T::V)>, b: Seq<(Seq<char>, T::V)>)
    ensures
        element_names(common_part::<T>(a, b, true)) == keys_of(a).filter(present_in(b)),
    decreases a.len(),
{
    let f = present_in(b);
    if a.len() == 0 {
        assert(keys_of(a).filter(f) =~= Seq::<Seq<char>>::empty());
        assert(element_names(common_part::<T>(a, b, true)) =~= Seq::<Seq<char>>::empty());
    } else {
        let p = a.drop_last();
        lemma_common_keys::<T>(p, b);
        assert(keys_of(a) =~= keys_of(p).push(a.last().0));
        keys_of(p).lemma_filter_push(a.last().0, f);
        if has_key(b, a.last().0) {
            lemma_value_of_present(b, a.last().0);
        } else {
            lemma_value_of_absent(b, a.last().0);
        }
        assert(element_names(common_part::<T>(a, b, true)) =~= keys_of(a).filter(f));
    }
}

/// What the diff of two maps is: the removed keys, then the shared keys,
/// then the added keys, each group in key order; Removed, then Unchanged
/// when the two values are equal and Modified otherwise, then Added; only
/// Modified entries carry property and child differences.
pub open spec fn diff_list_law<T: Compared>(
    d: Seq<ElementDiffV>,
    o: Seq<(Seq<char>, T::V)>,
    n: Seq<(Seq<char>, T::V)>,
) -> bool {
    let g1 = keys_of(o).filter(absent_in(n));
    let g2 = keys_of(o).filter(present_in(n));
    let g3 = keys_of(n).filter(absent_in(o));
    &&& element_names(d) == g1 + g2 + g3
    &&& forall|i: int| 0 <= i < g1.len() ==> (#[trigger] d[i]).status == DiffStatus::Removed
    &&& forall|i: int|
        g1.len() <= i < g1.len() + g2.len() ==> (#[trigger] d[i]).status == if value_of(o, d[i].name) == value_of(
            n,
            d[i].name,
        ) {
            DiffStatus::Unchanged
        } else {
            DiffStatus::Modified
        }
    &&& forall|i: int| g1.len() + g2.len() <= i < d.len() ==> (#[trigger] d[i]).status == DiffStatus::Added
    &&& forall|i: int|
        0 <= i < d.len() && (#[trigger] d[i]).status != DiffStatus::Modified ==> d[i].property_diffs.len() == 0
            && d[i].children.len() == 0
}

/// The diff of two maps with sorted keys meets [`diff_list_law`].
pub proof fn law_map_diff_lists<T: Compared>(o: Seq<(Seq<char>, T::V)>, n: Seq<(Seq<char>, T::V)>)
    requires
        strictly_sorted(o),
        strictly_sorted(n),
    ensures
        diff_list_law::<T>(map_diff::<T>(o, n), o, n),
{
    let d = map_diff::<T>(o, n);
    law_map_diff_groups::<T>(o, n);
    lemma_only_in_keys(o, n, DiffStatus::Removed);
    lemma_common_keys::<T>(o, n);
    lemma_only_in_keys(n, o, DiffStatus::Added);
    let g1 = only_in(o, n, DiffStatus::Removed);
    let g2 = common_part::<T>(o, n, true);
    let g3 = only_in(n, o, DiffStatus::Added);
    assert(d =~= g1 + g2 + g3);
    assert(element_names(d) =~= element_names(g1) + element_names(g2) + element_names(g3));
    let n1 = g1.len() as int;
    let n2 = n1 + g2.len();
    assert forall|i: int| n1 <= i < n2 implies (#[trigger] d[i]).status == if value_of(o, d[i].name) == value_of(
        n,
        d[i].name,
    ) {
        DiffStatus::Unchanged
    } else {
        DiffStatus::Modified
    } by {
        lemma_value_of_present(o, d[i].name);
        lemma_value_of_present(n, d[i].name);
    }
}

/// The comparison of two ECUs: each of its variant, functional-group and
/// DTC lists meets [`diff_list_law`] against the two snapshots' maps.
pub proof fn law_compare_lists(a: EcuV, b: EcuV)
    requires
        strictly_sorted(a.variants),
        strictly_sorted(b.variants),
        strictly_sorted(a.functional_groups),
        strictly_sorted(b.functional_groups),
        strictly_sorted(a.dtcs),
        strictly_sorted(b.dtcs),
    ensures
        diff_list_law::<VariantSnapshot>(spec_compare(a, b).variants, a.variants, b.variants),
        diff_list_law::<FunctionalGroupSnapshot>(
            spec_compare(a, b).functional_groups,
            a.functional_groups,
            b.functional_groups,
        ),
        diff_list_law::<DtcSnapshot>(spec_compare(a, b).dtcs, a.dtcs, b.dtcs),
{
    law_map_diff_lists::<VariantSnapshot>(a.variants, b.variants);
    law_map_diff_lists::<FunctionalGroupSnapshot>(a.functional_groups, b.functional_groups);
    law_map_diff_lists::<DtcSnapshot>(a.dtcs, b.dtcs);
}


proof fn lemma_opt_u32_text_injective(x: Option<u32>, y: Option<u32>)
    requires
        opt_u32_text(x) == opt_u32_text(y),
    ensures
        x == y,
{
    reveal_strlit("None");
    match (x, y) {
        (Some(v), Some(w)) => {
            lemma_decimal_injective(v as nat, w as nat);
        },
        (Some(v), None) => {
            lemma_decimal_last(v as nat);
            assert(digit_char(v as nat % 10) != 'e');
        },
        (None, Some(w)) => {
            lemma_decimal_last(w as nat);
            assert(digit_char(w as nat % 10) != 'e');
        },
        (None, None) => {},
    }
}

/// The rendering of a DTC's field `name`, as a property diff shows it; empty
/// for a name that is not one of a DTC's fields.
pub open spec fn dtc_field(d: DtcV, name: Seq<char>) -> Seq<char> {
    if name == "short_name"@ {
        d.short_name
    } else if name == "trouble_code"@ {
        decimal(d.trouble_code as nat)
    } else if name == "display_trouble_code"@ {
        d.display_trouble_code
    } else if name == "text"@ {
        d.text
    } else if name == "level"@ {
        opt_u32_text(d.level)
    } else if name == "is_temporary"@ {
        bool_text(d.is_temporary)
    } else {
        Seq::empty()
    }
}

/// Every diff in `ps` shows `old_field` of its name as its old value and
/// `new_field` of its name as its new value, and the two differ.
pub open spec fn diffs_sided(
    ps: Seq<PropertyDiffV>,
    old_field: spec_fn(Seq<char>) -> Seq<char>,
    new_field: spec_fn(Seq<char>) -> Seq<char>,
) -> bool {
    forall|i: int|
        0 <= i < ps.len() ==> {
            &&& (#[trigger] ps[i]).old_value == old_field(ps[i].name)
            &&& ps[i].new_value == new_field(ps[i].name)
            &&& ps[i].old_value != ps[i].new_value
        }
}

proof fn lemma_sided_concat(
    x: Seq<PropertyDiffV>,
    y: Seq<PropertyDiffV>,
    old_field: spec_fn(Seq<char>) -> Seq<char>,
    new_field: spec_fn(Seq<char>) -> Seq<char>,
)
    requires
        diffs_sided(x, old_field, new_field),
        diffs_sided(y, old_field, new_field),
    ensures
        diffs_sided(x + y, old_field, new_field),
{
    assert forall|i: int| 0 <= i < (x + y).len() implies {
        &&& (#[trigger] (x + y)[i]).old_value == old_field((x + y)[i].name)
        &&& (x + y)[i].new_value == new_field((x + y)[i].name)
        &&& (x + y)[i].old_value != (x + y)[i].new_value
    } by {
        if i < x.len() {
            assert((x + y)[i] == x[i]);
        } else {
            assert((x + y)[i] == y[i - x.len()]);
        }
    }
}

/// Comparing two DTCs gives, for each field that differs, one property diff
/// named after the field whose old value is that field of the old DTC and
/// whose new value is that field of the new DTC (the `text` diff holds the
/// old text, then the new text); fields that are equal give no diff.
pub proof fn law_dtc_diff_sides(a: DtcV, b: DtcV)
    ensures
        diffs_sided(
            DtcSnapshot::spec_diff(a, b).0,
            |n: Seq<char>| dtc_field(a, n),
            |n: Seq<char>| dtc_field(b, n),
        ),
        a.short_name != b.short_name ==> exists|i: int|
            0 <= i < DtcSnapshot::spec_diff(a, b).0.len()
                && (#[trigger] DtcSnapshot::spec_diff(a, b).0[i]).name == "short_name"@,
        a.trouble_code != b.trouble_code ==> exists|i: int|
            0 <= i < DtcSnapshot::spec_diff(a, b).0.len()
                && (#[trigger] DtcSnapshot::spec_diff(a, b).0[i]).name == "trouble_code"@,
        a.display_trouble_code != b.display_trouble_code ==> exists|i: int|
            0 <= i < DtcSnapshot::spec_diff(a, b).0.len()
                && (#[trigger] DtcSnapshot::spec_diff(a, b).0[i]).name == "display_trouble_code"@,
        a.text != b.text ==> exists|i: int|
            0 <= i < DtcSnapshot::spec_diff(a, b).0.len()
                && (#[trigger] DtcSnapshot::spec_diff(a, b).0[i]).name == "text"@,
        a.level != b.level ==> exists|i: int|
            0 <= i < DtcSnapshot::spec_diff(a, b).0.len()
                && (#[trigger] DtcSnapshot::spec_diff(a, b).0[i]).name == "level"@,
        a.is_temporary != b.is_temporary ==> exists|i: int|
            0 <= i < DtcSnapshot::spec_diff(a, b).0.len()
                && (#[trigger] DtcSnapshot::spec_diff(a, b).0[i]).name == "is_temporary"@,
{
    reveal_strlit("short_name");
    reveal_strlit("trouble_code");
    reveal_strlit("display_trouble_code");
    reveal_strlit("text");
    reveal_strlit("level");
    reveal_strlit("is_temporary");
    reveal_strlit("true");
    reveal_strlit("false");
    reveal_strlit("None");
    assert("trouble_code"@[0] != "is_temporary"@[0]);
    let p1 = prop_if("short_name"@, a.short_name, b.short_name);
    let p2 = prop_if("trouble_code"@, decimal(a.trouble_code as nat), decimal(b.trouble_code as nat));
    let p3 = prop_if("display_trouble_code"@, a.display_trouble_code, b.display_trouble_code);
    let p4 = prop_if("text"@, a.text, b.text);
    let p5 = opt_u32_prop_if("level"@, a.level, b.level);
    let p6 = prop_if("is_temporary"@, bool_text(a.is_temporary), bool_text(b.is_temporary));
    let ps = DtcSnapshot::spec_diff(a, b).0;
    let fa = |n: Seq<char>| dtc_field(a, n);
    let fb = |n: Seq<char>| dtc_field(b, n);
    assert(ps == p1 + p2 + p3 + p4 + p5 + p6);
    assert(diffs_sided(p1, fa, fb));
    assert(diffs_sided(p2, fa, fb));
    assert("display_trouble_code"@.len() == 20);
    assert("display_trouble_code"@ != "short_name"@);
    assert("display_trouble_code"@ != "trouble_code"@);
    assert(diffs_sided(p3, fa, fb));
    assert("text"@.len() == 4);
    assert("text"@ != "short_name"@);
    assert("text"@ != "trouble_code"@);
    assert("text"@ != "display_trouble_code"@);
    assert(diffs_sided(p4, fa, fb));
    assert("level"@.len() == 5);
    assert("level"@ != "short_name"@);
    assert("level"@ != "trouble_code"@);
    assert("level"@ != "display_trouble_code"@);
    assert("level"@ != "text"@);
    if opt_u32_text(a.level) == opt_u32_text(b.level) {
        lemma_opt_u32_text_injective(a.level, b.level);
    }
    assert(diffs_sided(p5, fa, fb));
    assert("true"@.len() == 4 && "false"@.len() == 5);
    assert(diffs_sided(p6, fa, fb));
    lemma_sided_concat(p1, p2, fa, fb);
    lemma_sided_concat(p1 + p2, p3, fa, fb);
    lemma_sided_concat(p1 + p2 + p3, p4, fa, fb);
    lemma_sided_concat(p1 + p2 + p3 + p4, p5, fa, fb);
    lemma_sided_concat(p1 + p2 + p3 + p4 + p5, p6, fa, fb);
    if a.short_name != b.short_name {
        assert(ps[0].name == "short_name"@);
    }
    if a.trouble_code != b.trouble_code {
        if decimal(a.trouble_code as nat) == decimal(b.trouble_code as nat) {
            lemma_decimal_injective(a.trouble_code as nat, b.trouble_code as nat);
        }
        assert(ps[p1.len() as int].name == "trouble_code"@);
    }
    if a.display_trouble_code != b.display_trouble_code {
        assert(ps[(p1.len() + p2.len()) as int].name == "display_trouble_code"@);
    }
    if a.text != b.text {
        assert(ps[(p1.len() + p2.len() + p3.len()) as int].name == "text"@);
    }
    if a.level != b.level {
        if opt_u32_text(a.level) == opt_u32_text(b.level) {
            lemma_opt_u32_text_injective(a.level, b.level);
        }
        assert(ps[(p1.len() + p2.len() + p3.len() + p4.len()) as int].name == "level"@);
    }
    if a.is_temporary != b.is_temporary {
        assert(ps[(p1.len() + p2.len() + p3.len() + p4.len() + p5.len()) as int].name
            == "is_temporary"@);
    }
}


/// The rendering of a parameter's field `name`, as a property diff shows it;
/// empty for a name that is not one of a parameter's fields.
pub open spec fn param_field(p: ParamV, name: Seq<char>) -> Seq<char> {
    if name == "short_name"@ {
        p.short_name
    } else if name == "semantic"@ {
        p.semantic
    } else if name == "physical_default_value"@ {
        p.physical_default_value
    } else if name == "byte_position"@ {
        decimal(p.byte_position as nat)
    } else if name == "bit_position"@ {
        decimal(p.bit_position as nat)
    } else if name == "param_type"@ {
        p.param_type
    } else if name == "specific_data_summary"@ {
        p.specific_data_summary
    } else {
        Seq::empty()
    }
}

/// Comparing two parameters gives property diffs whose old value is the named
/// field of the old parameter and whose new value is that field of the new
/// one; a changed short name, semantic, type or position always gives one.
pub proof fn law_param_diff_sides(a: ParamV, b: ParamV)
    ensures
        diffs_sided(
            ParamSnapshot::spec_diff(a, b).0,
            |n: Seq<char>| param_field(a, n),
            |n: Seq<char>| param_field(b, n),
        ),
        a.short_name != b.short_name ==> exists|i: int|
            0 <= i < ParamSnapshot::spec_diff(a, b).0.len()
                && (#[trigger] ParamSnapshot::spec_diff(a, b).0[i]).name == "short_name"@,
        a.byte_position != b.byte_position ==> exists|i: int|
            0 <= i < ParamSnapshot::spec_diff(a, b).0.len()
                && (#[trigger] ParamSnapshot::spec_diff(a, b).0[i]).name == "byte_position"@,
        a.bit_position != b.bit_position ==> exists|i: int|
            0 <= i < ParamSnapshot::spec_diff(a, b).0.len()
                && (#[trigger] ParamSnapshot::spec_diff(a, b).0[i]).name == "bit_position"@,
{
    reveal_strlit("short_name");
    reveal_strlit("semantic");
    reveal_strlit("physical_default_value");
    reveal_strlit("byte_position");
    reveal_strlit("bit_position");
    reveal_strlit("param_type");
    reveal_strlit("specific_data_summary");
    let fa = |n: Seq<char>| param_field(a, n);
    let fb = |n: Seq<char>| param_field(b, n);
    let p1 = prop_if("short_name"@, a.short_name, b.short_name);
    let p2 = prop_if("semantic"@, a.semantic, b.semantic);
    let p3 = prop_if("physical_default_value"@, a.physical_default_value, b.physical_default_value);
    let p4 = prop_if("byte_position"@, decimal(a.byte_position as nat), decimal(b.byte_position as nat));
    let p5 = prop_if("bit_position"@, decimal(a.bit_position as nat), decimal(b.bit_position as nat));
    let p6 = prop_if("param_type"@, a.param_type, b.param_type);
    let p7 = prop_if("specific_data_summary"@, a.specific_data_summary, b.specific_data_summary);
    let ps = ParamSnapshot::spec_diff(a, b).0;
    assert(ps == p1 + p2 + p3 + p4 + p5 + p6 + p7);
    assert("short_name"@.len() == 10 && "semantic"@.len() == 8);
    assert("physical_default_value"@.len() == 22 && "byte_position"@.len() == 13);
    assert("bit_position"@.len() == 12 && "param_type"@.len() == 10);
    assert("specific_data_summary"@.len() == 21);
    assert("param_type"@[0] != "short_name"@[0]);
    assert(diffs_sided(p1, fa, fb));
    assert(diffs_sided(p2, fa, fb));
    assert(diffs_sided(p3, fa, fb));
    assert(diffs_sided(p4, fa, fb));
    assert(diffs_sided(p5, fa, fb));
    assert("param_type"@ != "short_name"@);
    assert(diffs_sided(p6, fa, fb));
    assert(diffs_sided(p7, fa, fb));
    lemma_sided_concat(p1, p2, fa, fb);
    lemma_sided_concat(p1 + p2, p3, fa, fb);
    lemma_sided_concat(p1 + p2 + p3, p4, fa, fb);
    lemma_sided_concat(p1 + p2 + p3 + p4, p5, fa, fb);
    lemma_sided_concat(p1 + p2 + p3 + p4 + p5, p6, fa, fb);
    lemma_sided_concat(p1 + p2 + p3 + p4 + p5 + p6, p7, fa, fb);
    if a.short_name != b.short_name {
        assert(ps[0].name == "short_name"@);
    }
    if a.byte_position != b.byte_position {
        if decimal(a.byte_position as nat) == decimal(b.byte_position as nat) {
            lemma_decimal_injective(a.byte_position as nat, b.byte_position as nat);
        }
        assert(ps[(p1.len() + p2.len() + p3.len()) as int].name == "byte_position"@);
    }
    if a.bit_position != b.bit_position {
        if decimal(a.bit_position as nat) == decimal(b.bit_position as nat) {
            lemma_decimal_injective(a.bit_position as nat, b.bit_position as nat);
        }
        assert(ps[(p1.len() + p2.len() + p3.len() + p4.len()) as int].name == "bit_position"@);
    }
}

/// The rendering of an ECU's top-level field `name`, as a property diff
/// shows it; empty for a name that is not one of those fields.
pub open spec fn ecu_field(e: EcuV, name: Seq<char>) -> Seq<char> {
    if name == "name"@ {
        e.name
    } else if name == "version"@ {
        e.version
    } else if name == "revision"@ {
        e.revision
    } else if name == "metadata"@ {
        metadata_text(e.metadata)
    } else {
        Seq::empty()
    }
}

/// Comparing two ECU snapshots gives top-level property diffs whose old
/// value is the named field of the old snapshot and whose new value is that
/// field of the new one (stated where two different metadata lists do not
/// render to the same text, since the metadata diff then shows equal texts).
pub proof fn law_ecu_diff_sides(a: EcuV, b: EcuV)
    ensures
        !(a.metadata != b.metadata && metadata_text(a.metadata) == metadata_text(b.metadata))
            ==> diffs_sided(
            spec_ecu_props(a, b),
            |n: Seq<char>| ecu_field(a, n),
            |n: Seq<char>| ecu_field(b, n),
        ),
        a.name != b.name ==> exists|i: int|
            0 <= i < spec_ecu_props(a, b).len() && (#[trigger] spec_ecu_props(a, b)[i]).name == "name"@,
        a.version != b.version ==> exists|i: int|
            0 <= i < spec_ecu_props(a, b).len() && (#[trigger] spec_ecu_props(a, b)[i]).name == "version"@,
        a.revision != b.revision ==> exists|i: int|
            0 <= i < spec_ecu_props(a, b).len() && (#[trigger] spec_ecu_props(a, b)[i]).name == "revision"@,
{
    reveal_strlit("name");
    reveal_strlit("version");
    reveal_strlit("revision");
    reveal_strlit("metadata");
    let fa = |n: Seq<char>| ecu_field(a, n);
    let fb = |n: Seq<char>| ecu_field(b, n);
    let p1 = prop_if("name"@, a.name, b.name);
    let p2 = prop_if("version"@, a.version, b.version);
    let p3 = prop_if("revision"@, a.revision, b.revision);
    let p4 = if a.metadata != b.metadata {
        seq![prop("metadata"@, metadata_text(a.metadata), metadata_text(b.metadata))]
    } else {
        Seq::<PropertyDiffV>::empty()
    };
    let ps = spec_ecu_props(a, b);
    assert(ps == p1 + p2 + p3 + p4);
    assert("name"@.len() == 4 && "version"@.len() == 7 && "revision"@.len() == 8);
    assert("metadata"@.len() == 8 && "metadata"@[0] != "revision"@[0]);
    assert("metadata"@ != "revision"@);
    assert(diffs_sided(p1, fa, fb));
    assert(diffs_sided(p2, fa, fb));
    assert(diffs_sided(p3, fa, fb));
    lemma_sided_concat(p1, p2, fa, fb);
    lemma_sided_concat(p1 + p2, p3, fa, fb);
    if !(a.metadata != b.metadata && metadata_text(a.metadata) == metadata_text(b.metadata)) {
        assert(diffs_sided(p4, fa, fb));
        lemma_sided_concat(p1 + p2 + p3, p4, fa, fb);
    }
    if a.name != b.name {
        assert(ps[0].name == "name"@);
    }
    if a.version != b.version {
        assert(ps[p1.len() as int].name == "version"@);
    }
    if a.revision != b.revision {
        assert(ps[(p1.len() + p2.len()) as int].name == "revision"@);
    }
}

} // verus!
