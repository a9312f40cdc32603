//! Re-resolution of the indices stored in the tree after its nodes moved.
use vstd::prelude::*;
use vstd::hash_map::StringHashMap;
use crate::tree::types::{
    CellJumpTarget, CellJumpTargetType, CellV, ContentV, DetailCell, DetailContent, DetailRow,
    DetailSectionData, JumpV, MetadataV, NodePayload, NodeV, PayloadV, RowMetadata, RowV, SectionV,
    ServiceListType, TreeNode, cells_view, content_view, nodes_view, rows_view, section_view,
    sections_view, strings_view,
};

verus! {

broadcast use vstd::std_specs::vec::group_vec_axioms;

// Name lookups
/// The node carries `name` as its service name, its short name or its text.
pub open spec fn carries(n: NodeV, name: Seq<char>) -> bool {
    n.payload.service_short_name() == Some(name) || n.payload.short_name() == Some(name) || n.text
        == name
}

/// The first of the first `n` nodes that carries `name`.
pub open spec fn first_carrier(nodes: Seq<NodeV>, name: Seq<char>, n: int) -> Option<int>
    decreases n,
{
    if n <= 0 {
        None
    } else {
        match first_carrier(nodes, name, n - 1) {
            Some(k) => Some(k),
            None => if carries(nodes[n - 1], name) {
                Some(n - 1)
            } else {
                None
            },
        }
    }
}

/// The last of the first `n` nodes whose short name is `name`.
pub open spec fn last_named(nodes: Seq<NodeV>, name: Seq<char>, n: int) -> Option<int>
    decreases n,
{
    if n <= 0 {
        None
    } else if nodes[n - 1].payload.short_name() == Some(name) {
        Some(n - 1)
    } else {
        last_named(nodes, name, n - 1)
    }
}

/// Where a name points: the first node carrying it.
pub open spec fn name_index(nodes: Seq<NodeV>, name: Seq<char>) -> Option<int> {
    first_carrier(nodes, name, nodes.len() as int)
}

/// Where a container name points: the last node with that short name.
pub open spec fn container_index(nodes: Seq<NodeV>, name: Seq<char>) -> Option<int> {
    last_named(nodes, name, nodes.len() as int)
}

proof fn lemma_first_carrier_bounds(nodes: Seq<NodeV>, name: Seq<char>, n: int)
    ensures
        first_carrier(nodes, name, n) matches Some(k) ==> 0 <= k < n,
    decreases n,
{
    if n > 0 {
        lemma_first_carrier_bounds(nodes, name, n - 1);
    }
}

proof fn lemma_last_named_bounds(nodes: Seq<NodeV>, name: Seq<char>, n: int)
    ensures
        last_named(nodes, name, n) matches Some(k) ==> 0 <= k < n,
    decreases n,
{
    if n > 0 {
        lemma_last_named_bounds(nodes, name, n - 1);
    }
}

/// The maps hold the name lookups of `nodes`.
pub open spec fn maps_of(nodes: Seq<NodeV>, names: Map<Seq<char>, usize>, containers: Map<Seq<char>, usize>) -> bool {
    &&& forall|nm: Seq<char>| #[trigger]
        names.contains_key(nm) == (name_index(nodes, nm) is Some)
    &&& forall|nm: Seq<char>| #[trigger]
        names.contains_key(nm) ==> names[nm] == name_index(nodes, nm)->0
    &&& forall|nm: Seq<char>| #[trigger]
        containers.contains_key(nm) == (container_index(nodes, nm) is Some)
    &&& forall|nm: Seq<char>| #[trigger]
        containers.contains_key(nm) ==> containers[nm] == container_index(nodes, nm)->0
}

fn insert_first(m: &mut StringHashMap<usize>, k: &str, i: usize)
    ensures
        final(m)@ == if old(m)@.contains_key(k@) {
            old(m)@
        } else {
            old(m)@.insert(k@, i)
        },
{
    if !m.contains_key(k) {
        m.insert(k.to_owned(), i);
    }
}

fn build_maps(nodes: &Vec<TreeNode>) -> (r: (StringHashMap<usize>, StringHashMap<usize>))
    ensures
        maps_of(nodes_view(nodes@), r.0@, r.1@),
{
    let ghost nv = nodes_view(nodes@);
    let mut names: StringHashMap<usize> = StringHashMap::new();
    let mut containers: StringHashMap<usize> = StringHashMap::new();
    let mut i: usize = 0;
    while i < nodes.len()
        invariant
            0 <= i <= nodes@.len(),
            nv == nodes_view(nodes@),
            forall|nm: Seq<char>| #[trigger]
                names@.contains_key(nm) == (first_carrier(nv, nm, i as int) is Some),
            forall|nm: Seq<char>| #[trigger]
                names@.contains_key(nm) ==> names@[nm] == first_carrier(nv, nm, i as int)->0,
            forall|nm: Seq<char>| #[trigger]
                containers@.contains_key(nm) == (last_named(nv, nm, i as int) is Some),
            forall|nm: Seq<char>| #[trigger]
                containers@.contains_key(nm) ==> containers@[nm] == last_named(nv, nm, i as int)->0,
        decreases nodes@.len() - i,
    {
        let n = &nodes[i];
        let ghost before = names@;
        let ghost cbefore = containers@;
        if let Some(sn) = n.service_short_name() {
            insert_first(&mut names, sn, i);
        }
        if let Some(sn) = n.short_name() {
            insert_first(&mut names, sn, i);
            containers.insert(sn.to_owned(), i);
        }
        insert_first(&mut names, n.text.as_str(), i);
        proof {
            assert(nv[i as int] == nodes@[i as int]@);
            assert forall|nm: Seq<char>| #[trigger]
                names@.contains_key(nm) == (first_carrier(nv, nm, i + 1) is Some) && (
                names@.contains_key(nm) ==> names@[nm] == first_carrier(nv, nm, i + 1)->0) by {
                if before.contains_key(nm) {
                    lemma_first_carrier_bounds(nv, nm, i as int);
                } else {
                }
            }
            assert forall|nm: Seq<char>| #[trigger]
                containers@.contains_key(nm) == (last_named(nv, nm, i + 1) is Some) && (
                containers@.contains_key(nm) ==> containers@[nm] == last_named(nv, nm, i + 1)->0) by {
            }
        }
        i = i + 1;
    }
    (names, containers)
}

// Jump targets in detail sections
/// A jump target with its index looked up again by name (kept where the
/// name is unknown).
pub open spec fn resolved_jump(j: JumpV, nodes: Seq<NodeV>) -> JumpV {
    match j {
        JumpV::TreeNodeByIndex { index, short_name } => JumpV::TreeNodeByIndex {
            index: match name_index(nodes, short_name) {
                Some(k) => k as usize,
                None => index,
            },
            short_name,
        },
        JumpV::Dop { index, name } => JumpV::Dop {
            index: match name_index(nodes, name) {
                Some(k) => k as usize,
                None => index,
            },
            name,
        },
        JumpV::Container { index, short_name } => JumpV::Container {
            index: match container_index(nodes, short_name) {
                Some(k) => k as usize,
                None => index,
            },
            short_name,
        },
        JumpV::Parameter { .. } => j,
    }
}

pub open spec fn resolved_cell(c: CellV, nodes: Seq<NodeV>) -> CellV {
    CellV {
        jump_target: match c.jump_target {
            Some(j) => Some(resolved_jump(j, nodes)),
            None => None,
        },
        ..c
    }
}

pub open spec fn resolved_row(r: RowV, nodes: Seq<NodeV>) -> RowV {
    RowV { cells: r.cells.map_values(|c: CellV| resolved_cell(c, nodes)), ..r }
}

/// The content with the jump targets of its table rows (not its header)
/// looked up again, in nested sections too.
pub open spec fn resolved_content(c: ContentV, nodes: Seq<NodeV>) -> ContentV
    decreases c,
{
    match c {
        ContentV::Table { header, rows, constraints, use_row_selection } => ContentV::Table {
            header,
            rows: rows.map_values(|r: RowV| resolved_row(r, nodes)),
            constraints,
            use_row_selection,
        },
        ContentV::Composite(subs) => ContentV::Composite(
            Seq::new(
                subs.len(),
                |i: int|
                    if 0 <= i < subs.len() {
                        resolved_section(subs[i], nodes)
                    } else {
                        arbitrary()
                    },
            ),
        ),
        ContentV::PlainText(_) => c,
    }
}

pub open spec fn resolved_section(s: SectionV, nodes: Seq<NodeV>) -> SectionV
    decreases s,
{
    SectionV { content: resolved_content(s.content, nodes), ..s }
}

fn lookup(m: &StringHashMap<usize>, name: &String, keep: usize) -> (r: usize)
    ensures
        r == if m@.contains_key(name@) {
            m@[name@]
        } else {
            keep
        },
{
    match m.get(name.as_str()) {
        Some(k) => *k,
        None => keep,
    }
}

fn resolve_jump(
    t: CellJumpTargetType,
    names: &StringHashMap<usize>,
    containers: &StringHashMap<usize>,
    Ghost(nodes): Ghost<Seq<NodeV>>,
) -> (r: CellJumpTargetType)
    requires
        maps_of(nodes, names@, containers@),
    ensures
        r@ == resolved_jump(t@, nodes),
{
    match t {
        CellJumpTargetType::TreeNodeByIndex { index, short_name } => {
            let index = lookup(names, &short_name, index);
            CellJumpTargetType::TreeNodeByIndex { index, short_name }
        },
        CellJumpTargetType::Dop { index, name } => {
            let index = lookup(names, &name, index);
            CellJumpTargetType::Dop { index, name }
        },
        CellJumpTargetType::Container { index, short_name } => {
            let index = lookup(containers, &short_name, index);
            CellJumpTargetType::Container { index, short_name }
        },
        CellJumpTargetType::Parameter { param_id } => CellJumpTargetType::Parameter { param_id },
    }
}

fn resolve_cells(
    cells: Vec<DetailCell>,
    names: &StringHashMap<usize>,
    containers: &StringHashMap<usize>,
    Ghost(nodes): Ghost<Seq<NodeV>>,
) -> (r: Vec<DetailCell>)
    requires
        maps_of(nodes, names@, containers@),
    ensures
        cells_view(r@) == cells_view(cells@).map_values(|c: CellV| resolved_cell(c, nodes)),
{
    let ghost input = cells@;
    let total = cells.len();
    let mut rest = cells;
    let mut out: Vec<DetailCell> = Vec::new();
    while rest.len() > 0
        invariant
            input.len() == total,
            out@.len() + rest@.len() == input.len(),
            rest@ == input.subrange(out@.len() as int, input.len() as int),
            forall|j: int| 0 <= j < out@.len() ==> #[trigger] out@[j]@ == resolved_cell(input[j]@, nodes),
            maps_of(nodes, names@, containers@),
        decreases rest@.len(),
    {
        let c = rest.remove(0);
        let ghost k = out@.len();
        let DetailCell { text, cell_type, jump_target } = c;
        let jump_target = match jump_target {
            Some(jt) => Some(
                CellJumpTarget { target_type: resolve_jump(jt.target_type, names, containers, Ghost(nodes)) },
            ),
            None => None,
        };
        let y = DetailCell { text, cell_type, jump_target };
        assert(y@ == resolved_cell(input[k as int]@, nodes));
        out.push(y);
        assert(rest@ =~= input.subrange(out@.len() as int, input.len() as int));
    }
    assert(cells_view(out@) =~= cells_view(input).map_values(|c: CellV| resolved_cell(c, nodes)));
    out
}

fn resolve_rows(
    rows: Vec<DetailRow>,
    names: &StringHashMap<usize>,
    containers: &StringHashMap<usize>,
    Ghost(nodes): Ghost<Seq<NodeV>>,
) -> (r: Vec<DetailRow>)
    requires
        maps_of(nodes, names@, containers@),
    ensures
        rows_view(r@) == rows_view(rows@).map_values(|x: RowV| resolved_row(x, nodes)),
{
    let ghost input = rows@;
    let total = rows.len();
    let mut rest = rows;
    let mut out: Vec<DetailRow> = Vec::new();
    while rest.len() > 0
        invariant
            input.len() == total,
            out@.len() + rest@.len() == input.len(),
            rest@ == input.subrange(out@.len() as int, input.len() as int),
            forall|j: int| 0 <= j < out@.len() ==> #[trigger] out@[j]@ == resolved_row(input[j]@, nodes),
            maps_of(nodes, names@, containers@),
        decreases rest@.len(),
    {
        let row = rest.remove(0);
        let ghost k = out@.len() as int;
        let DetailRow { cells, indent, row_type, metadata, diff_status } = row;
        let cells = resolve_cells(cells, names, containers, Ghost(nodes));
        let y = DetailRow { cells, indent, row_type, metadata, diff_status };
        assert(y@ =~= resolved_row(input[k]@, nodes));
        out.push(y);
        assert(rest@ =~= input.subrange(out@.len() as int, input.len() as int));
    }
    assert(rows_view(out@) =~= rows_view(input).map_values(|x: RowV| resolved_row(x, nodes)));
    out
}

/// Looks up the jump targets of the sections again.
fn resolve_sections(
    sections: Vec<DetailSectionData>,
    names: &StringHashMap<usize>,
    containers: &StringHashMap<usize>,
    Ghost(nodes): Ghost<Seq<NodeV>>,
) -> (r: Vec<DetailSectionData>)
    requires
        maps_of(nodes, names@, containers@),
    ensures
        sections_view(r@) == sections_view(sections@).map_values(|x: SectionV| resolved_section(x, nodes)),
    decreases sections,
{
    let ghost input = sections@;
    let total = sections.len();
    let mut rest = sections;
    let mut out: Vec<DetailSectionData> = Vec::new();
    while rest.len() > 0
        invariant
            input.len() == total,
            input == sections@,
            out@.len() + rest@.len() == input.len(),
            rest@ == input.subrange(out@.len() as int, input.len() as int),
            forall|j: int| 0 <= j < out@.len() ==> #[trigger] section_view(out@[j]) == resolved_section(section_view(input[j]), nodes),
            maps_of(nodes, names@, containers@),
        decreases rest@.len(),
    {
        let x = rest.remove(0);
        let ghost k = out@.len() as int;
        assert(x == input[k]);
        let DetailSectionData { title, content, render_as_header, section_type, byte_pattern_rows } = x;
        let ghost old_content = content;
        let content = match content {
            DetailContent::Table { header, rows, constraints, use_row_selection } => DetailContent::Table {
                header,
                rows: resolve_rows(rows, names, containers, Ghost(nodes)),
                constraints,
                use_row_selection,
            },
            DetailContent::Composite(subs) => {
                proof {
                    vstd::std_specs::vec::axiom_vec_index_decreases(sections, k);
                }
                let ghost sv = subs@;
                let r = resolve_sections(subs, names, containers, Ghost(nodes));
                proof {
                    crate::tree::types::lemma_composite_view(DetailContent::Composite(r));
                    crate::tree::types::lemma_composite_view(old_content);
                    let a = content_view(DetailContent::Composite(r))->Composite_0;
                    let b = resolved_content(content_view(old_content), nodes)->Composite_0;
                    assert(sections_view(r@).len() == r@.len());
                    assert(sections_view(sv).len() == sv.len());
                    assert(old_content->Composite_0@ == sv);
                    assert(r@.len() == sv.len());
                    assert forall|i: int| 0 <= i < a.len() implies a[i] == b[i] by {
                        assert(sections_view(r@)[i] == section_view(r@[i]));
                        assert(sections_view(sv)[i] == section_view(sv[i]));
                        assert(content_view(old_content)->Composite_0[i] == section_view(sv[i]));
                    }
                    assert(a =~= b);
                }
                DetailContent::Composite(r)
            },
            DetailContent::PlainText(lines) => DetailContent::PlainText(lines),
        };
        let y = DetailSectionData { title, content, render_as_header, section_type, byte_pattern_rows };
        assert(section_view(y) == resolved_section(section_view(input[k]), nodes));
        out.push(y);
        assert(rest@ =~= input.subrange(out@.len() as int, input.len() as int));
    }
    assert(sections_view(out@) =~= sections_view(input).map_values(|x: SectionV| resolved_section(x, nodes)));
    out
}

// Parent references of containers
/// The container positions of the named parents, unknown names left out.
pub open spec fn refs_resolved(nodes: Seq<NodeV>, names: Seq<Seq<char>>) -> Seq<usize>
    decreases names.len(),
{
    if names.len() == 0 {
        Seq::empty()
    } else {
        let prev = refs_resolved(nodes, names.drop_last());
        match container_index(nodes, names.last()) {
            Some(k) => prev.push(k as usize),
            None => prev,
        }
    }
}

fn resolve_refs(
    names: &Vec<String>,
    containers: &StringHashMap<usize>,
    Ghost(nodes): Ghost<Seq<NodeV>>,
    Ghost(map_names): Ghost<Map<Seq<char>, usize>>,
) -> (r: Vec<usize>)
    requires
        maps_of(nodes, map_names, containers@),
    ensures
        r@ == refs_resolved(nodes, strings_view(names@)),
{
    let mut r: Vec<usize> = Vec::new();
    let mut i: usize = 0;
    while i < names.len()
        invariant
            0 <= i <= names@.len(),
            maps_of(nodes, map_names, containers@),
            r@ == refs_resolved(nodes, strings_view(names@.subrange(0, i as int))),
        decreases names@.len() - i,
    {
        proof {
            let sv = strings_view(names@.subrange(0, i + 1));
            assert(sv.drop_last() =~= strings_view(names@.subrange(0, i as int)));
            assert(sv.last() == names@[i as int]@);
        }
        match containers.get(names[i].as_str()) {
            Some(k) => r.push(*k),
            None => {},
        }
        i = i + 1;
    }
    assert(names@.subrange(0, i as int) =~= names@);
    r
}

// Links from overview rows to the lists below a node
/// The first node (of the first `n`) that heads a list of type `slt` directly
/// under `parent`.
pub open spec fn first_child_in(nodes: Seq<NodeV>, parent: usize, slt: ServiceListType, n: int) -> Option<int>
    decreases n,
{
    if n <= 0 {
        None
    } else {
        match first_child_in(nodes, parent, slt, n - 1) {
            Some(k) => Some(k),
            None => if nodes[n - 1].payload.service_list_type() == Some(slt) && nodes[n - 1].parent_idx
                == Some(parent) {
                Some(n - 1)
            } else {
                None
            },
        }
    }
}

/// A row that names a kind of child list links its first cell to the first
/// such list under the node at `idx`.
pub open spec fn linked_row(r: RowV, nodes: Seq<NodeV>, idx: usize) -> RowV {
    match r.metadata {
        Some(MetadataV::ChildElement { element_type }) => match first_child_in(
            nodes,
            idx,
            element_type.spec_service_list_type(),
            nodes.len() as int,
        ) {
            Some(c) => if r.cells.len() > 0 {
                RowV {
                    cells: r.cells.update(
                        0,
                        CellV {
                            jump_target: Some(
                                JumpV::TreeNodeByIndex { index: c as usize, short_name: nodes[c].text },
                            ),
                            ..r.cells[0]
                        },
                    ),
                    ..r
                }
            } else {
                r
            },
            None => r,
        },
        _ => r,
    }
}

/// The rows of a table section linked; other sections as they are.
pub open spec fn linked_section(s: SectionV, nodes: Seq<NodeV>, idx: usize) -> SectionV {
    match s.content {
        ContentV::Table { header, rows, constraints, use_row_selection } => SectionV {
            content: ContentV::Table {
                header,
                rows: rows.map_values(|r: RowV| linked_row(r, nodes, idx)),
                constraints,
                use_row_selection,
            },
            ..s
        },
        _ => s,
    }
}

/// A list header: parent position, list type, position and text.
pub open spec fn headers_in(nodes: Seq<NodeV>, n: int) -> Seq<(usize, ServiceListType, int, Seq<char>)>
    decreases n,
{
    if n <= 0 {
        Seq::empty()
    } else {
        let prev = headers_in(nodes, n - 1);
        let x = nodes[n - 1];
        match (x.payload.service_list_type(), x.parent_idx) {
            (Some(slt), Some(p)) => prev.push((p, slt, n - 1, x.text)),
            _ => prev,
        }
    }
}

pub open spec fn first_header(hs: Seq<(usize, ServiceListType, int, Seq<char>)>, parent: usize, slt: ServiceListType, m: int) -> Option<int>
    decreases m,
{
    if m <= 0 {
        None
    } else {
        match first_header(hs, parent, slt, m - 1) {
            Some(k) => Some(k),
            None => if hs[m - 1].0 == parent && hs[m - 1].1 == slt {
                Some(m - 1)
            } else {
                None
            },
        }
    }
}

proof fn lemma_first_header_prefix(hs: Seq<(usize, ServiceListType, int, Seq<char>)>, h: (usize, ServiceListType, int, Seq<char>), parent: usize, slt: ServiceListType, m: int)
    requires
        0 <= m <= hs.len(),
    ensures
        first_header(hs.push(h), parent, slt, m) == first_header(hs, parent, slt, m),
    decreases m,
{
    if m > 0 {
        lemma_first_header_prefix(hs, h, parent, slt, m - 1);
    }
}

proof fn lemma_first_header(nodes: Seq<NodeV>, parent: usize, slt: ServiceListType, n: int)
    requires
        0 <= n <= nodes.len(),
    ensures
        ({
            let hs = headers_in(nodes, n);
            match first_header(hs, parent, slt, hs.len() as int) {
                Some(j) => 0 <= j < hs.len() && first_child_in(nodes, parent, slt, n) == Some(hs[j].2)
                    && hs[j].3 == nodes[hs[j].2].text,
                None => first_child_in(nodes, parent, slt, n) is None,
            }
        }),
        forall|j: int| 0 <= j < headers_in(nodes, n).len() ==> 0 <= #[trigger] headers_in(nodes, n)[j].2 < n,
    decreases n,
{
    if n > 0 {
        lemma_first_header(nodes, parent, slt, n - 1);
        let prev = headers_in(nodes, n - 1);
        let x = nodes[n - 1];
        match (x.payload.service_list_type(), x.parent_idx) {
            (Some(s), Some(p)) => {
                let h = (p, s, n - 1, x.text);
                lemma_first_header_prefix(prev, h, parent, slt, prev.len() as int);
                assert(headers_in(nodes, n) == prev.push(h));
            },
            _ => {},
        }
    }
}

fn collect_headers(nodes: &Vec<TreeNode>) -> (r: Vec<(usize, ServiceListType, usize, String)>)
    ensures
        r@.map_values(|h: (usize, ServiceListType, usize, String)| (h.0, h.1, h.2 as int, h.3@))
            == headers_in(nodes_view(nodes@), nodes@.len() as int),
{
    let ghost nv = nodes_view(nodes@);
    let mut r: Vec<(usize, ServiceListType, usize, String)> = Vec::new();
    let mut i: usize = 0;
    while i < nodes.len()
        invariant
            0 <= i <= nodes@.len(),
            nv == nodes_view(nodes@),
            r@.map_values(|h: (usize, ServiceListType, usize, String)| (h.0, h.1, h.2 as int, h.3@))
                == headers_in(nv, i as int),
        decreases nodes@.len() - i,
    {
        let ghost before = r@;
        assert(nv[i as int] == nodes@[i as int]@);
        match (nodes[i].service_list_type(), nodes[i].parent_idx) {
            (Some(slt), Some(p)) => {
                r.push((p, slt, i, nodes[i].text.clone()));
                assert(r@.map_values(|h: (usize, ServiceListType, usize, String)| (h.0, h.1, h.2 as int, h.3@))
                    =~= before.map_values(|h: (usize, ServiceListType, usize, String)| (h.0, h.1, h.2 as int, h.3@)).push((p, slt, i as int, nodes@[i as int].text@)));
            },
            _ => {},
        }
        i = i + 1;
    }
    r
}

fn find_header(
    headers: &Vec<(usize, ServiceListType, usize, String)>,
    parent: usize,
    slt: ServiceListType,
) -> (r: Option<usize>)
    ensures
        match r {
            Some(j) => first_header(
                headers@.map_values(|h: (usize, ServiceListType, usize, String)| (h.0, h.1, h.2 as int, h.3@)),
                parent,
                slt,
                headers@.len() as int,
            ) == Some(j as int) && j < headers@.len(),
            None => first_header(
                headers@.map_values(|h: (usize, ServiceListType, usize, String)| (h.0, h.1, h.2 as int, h.3@)),
                parent,
                slt,
                headers@.len() as int,
            ) is None,
        },
{
    let ghost hs = headers@.map_values(|h: (usize, ServiceListType, usize, String)| (h.0, h.1, h.2 as int, h.3@));
    let mut j: usize = 0;
    while j < headers.len()
        invariant
            0 <= j <= headers@.len(),
            hs == headers@.map_values(|h: (usize, ServiceListType, usize, String)| (h.0, h.1, h.2 as int, h.3@)),
            first_header(hs, parent, slt, j as int) is None,
        decreases headers@.len() - j,
    {
        if headers[j].0 == parent && headers[j].1 == slt {
            proof {
                lemma_first_header_upto(hs, parent, slt, j + 1, headers@.len() as int);
            }
            return Some(j);
        }
        j = j + 1;
    }
    None
}

proof fn lemma_first_header_upto(hs: Seq<(usize, ServiceListType, int, Seq<char>)>, parent: usize, slt: ServiceListType, m: int, n: int)
    requires
        0 < m <= n,
        first_header(hs, parent, slt, m) == Some(m - 1),
    ensures
        first_header(hs, parent, slt, n) == Some(m - 1),
    decreases n - m,
{
    if m < n {
        lemma_first_header_upto(hs, parent, slt, m, n - 1);
    }
}

pub open spec fn headers_view(h: Seq<(usize, ServiceListType, usize, String)>) -> Seq<(usize, ServiceListType, int, Seq<char>)> {
    h.map_values(|h: (usize, ServiceListType, usize, String)| (h.0, h.1, h.2 as int, h.3@))
}

fn link_row(
    row: DetailRow,
    idx: usize,
    headers: &Vec<(usize, ServiceListType, usize, String)>,
    Ghost(nodes): Ghost<Seq<NodeV>>,
) -> (r: DetailRow)
    requires
        headers_view(headers@) == headers_in(nodes, nodes.len() as int),
    ensures
        r@ == linked_row(row@, nodes, idx),
{
    let DetailRow { cells, indent, row_type, metadata, diff_status } = row;
    let mut cells = cells;
    match &metadata {
        Some(RowMetadata::ChildElement { element_type }) => {
            let slt = element_type.to_service_list_type();
            proof {
                lemma_first_header(nodes, idx, slt, nodes.len() as int);
            }
            match find_header(headers, idx, slt) {
                Some(j) => {
                    if cells.len() > 0 {
                        let ghost before = cells@;
                        let target = CellJumpTarget::new(
                            CellJumpTargetType::TreeNodeByIndex {
                                index: headers[j].2,
                                short_name: headers[j].3.clone(),
                            },
                        );
                        cells[0].jump_target = Some(target);
                        assert(cells_view(cells@) =~= cells_view(before).update(
                            0,
                            CellV {
                                jump_target: Some(
                                    JumpV::TreeNodeByIndex {
                                        index: headers@[j as int].2,
                                        short_name: headers@[j as int].3@,
                                    },
                                ),
                                ..cells_view(before)[0]
                            },
                        ));
                    }
                },
                None => {},
            }
        },
        _ => {},
    }
    DetailRow { cells, indent, row_type, metadata, diff_status }
}

fn link_sections(
    sections: Vec<DetailSectionData>,
    idx: usize,
    headers: &Vec<(usize, ServiceListType, usize, String)>,
    Ghost(nodes): Ghost<Seq<NodeV>>,
) -> (r: Vec<DetailSectionData>)
    requires
        headers_view(headers@) == headers_in(nodes, nodes.len() as int),
    ensures
        sections_view(r@) == sections_view(sections@).map_values(|x: SectionV| linked_section(x, nodes, idx)),
{
    let ghost input = sections@;
    let total = sections.len();
    let mut rest = sections;
    let mut out: Vec<DetailSectionData> = Vec::new();
    while rest.len() > 0
        invariant
            input.len() == total,
            out@.len() + rest@.len() == input.len(),
            rest@ == input.subrange(out@.len() as int, input.len() as int),
            forall|j: int| 0 <= j < out@.len() ==> #[trigger] section_view(out@[j]) == linked_section(section_view(input[j]), nodes, idx),
            headers_view(headers@) == headers_in(nodes, nodes.len() as int),
        decreases rest@.len(),
    {
        let x = rest.remove(0);
        let ghost k = out@.len() as int;
        let DetailSectionData { title, content, render_as_header, section_type, byte_pattern_rows } = x;
        let content = match content {
            DetailContent::Table { header, rows, constraints, use_row_selection } => {
                let ghost rin = rows@;
                let rows_total = rows.len();
                let mut rrest = rows;
                let mut rout: Vec<DetailRow> = Vec::new();
                while rrest.len() > 0
                    invariant
                        rin.len() == rows_total,
                        rout@.len() + rrest@.len() == rin.len(),
                        rrest@ == rin.subrange(rout@.len() as int, rin.len() as int),
                        forall|j: int| 0 <= j < rout@.len() ==> #[trigger] rout@[j]@ == linked_row(rin[j]@, nodes, idx),
                        headers_view(headers@) == headers_in(nodes, nodes.len() as int),
                    decreases rrest@.len(),
                {
                    let row = rrest.remove(0);
                    let ghost m = rout@.len() as int;
                    assert(row == rin[m]);
                    rout.push(link_row(row, idx, headers, Ghost(nodes)));
                    assert(rrest@ =~= rin.subrange(rout@.len() as int, rin.len() as int));
                }
                assert(rows_view(rout@) =~= rows_view(rin).map_values(|r: RowV| linked_row(r, nodes, idx)));
                DetailContent::Table { header, rows: rout, constraints, use_row_selection }
            },
            other => other,
        };
        let y = DetailSectionData { title, content, render_as_header, section_type, byte_pattern_rows };
        assert(section_view(y) == linked_section(section_view(input[k]), nodes, idx));
        out.push(y);
        assert(rest@ =~= input.subrange(out@.len() as int, input.len() as int));
    }
    assert(sections_view(out@) =~= sections_view(input).map_values(|x: SectionV| linked_section(x, nodes, idx)));
    out
}

// The whole pass
pub open spec fn resolved_payload(p: crate::tree::types::PayloadV, nodes: Seq<NodeV>) -> crate::tree::types::PayloadV {
    match p {
        crate::tree::types::PayloadV::Container { short_name, parent_ref_names, parent_ref_indices } =>
            crate::tree::types::PayloadV::Container {
            short_name,
            parent_ref_names,
            parent_ref_indices: refs_resolved(nodes, parent_ref_names),
        },
        _ => p,
    }
}

/// The node at `i` after the indices stored in the tree were looked up again
/// by name: container parent references, jump targets in its detail tables,
/// and the links from its overview rows to its child lists.
pub open spec fn resolved_node(nodes: Seq<NodeV>, i: int) -> NodeV {
    NodeV {
        payload: resolved_payload(nodes[i].payload, nodes),
        detail_sections: nodes[i].detail_sections.map_values(
            |s: SectionV| linked_section(resolved_section(s, nodes), nodes, i as usize),
        ),
        ..nodes[i]
    }
}

/// Rebuilds all stored tree indices from canonical names; to be called after
/// the nodes were rearranged (by a sort, for instance).
pub fn resolve_all_indices(nodes: &mut Vec<TreeNode>)
    ensures
        nodes_view(final(nodes)@) == Seq::new(
            old(nodes)@.len(),
            |i: int| resolved_node(nodes_view(old(nodes)@), i),
        ),
{
    let ghost nv = nodes_view(nodes@);
    let (names, containers) = build_maps(nodes);
    let headers = collect_headers(nodes);
    let mut rest: Vec<TreeNode> = Vec::new();
    std::mem::swap(&mut rest, nodes);
    let ghost input = rest@;
    let total = rest.len();
    let mut i: usize = 0;
    while rest.len() > 0
        invariant
            input.len() == total,
            nv == nodes_view(input),
            i + rest@.len() == input.len(),
            nodes@.len() == i,
            rest@ == input.subrange(i as int, input.len() as int),
            forall|j: int| 0 <= j < i ==> #[trigger] nodes@[j]@ == resolved_node(nv, j),
            maps_of(nv, names@, containers@),
            headers_view(headers@) == headers_in(nv, nv.len() as int),
        decreases rest@.len(),
    {
        let x = rest.remove(0);
        assert(x == input[i as int]);
        assert(nv[i as int] == x@);
        let TreeNode {
            depth,
            text,
            expanded,
            has_children,
            detail_sections,
            node_type,
            payload,
            parent_idx,
            diff_status,
            old_text,
        } = x;
        let payload = match payload {
            NodePayload::Container { short_name, parent_ref_names, parent_ref_indices: _ } => {
                let parent_ref_indices = resolve_refs(&parent_ref_names, &containers, Ghost(nv), Ghost(names@));
                NodePayload::Container { short_name, parent_ref_names, parent_ref_indices }
            },
            other => other,
        };
        let ghost secs = sections_view(detail_sections@);
        let resolved = resolve_sections(detail_sections, &names, &containers, Ghost(nv));
        let detail_sections = link_sections(resolved, i, &headers, Ghost(nv));
        let y = TreeNode {
            depth,
            text,
            expanded,
            has_children,
            detail_sections,
            node_type,
            payload,
            parent_idx,
            diff_status,
            old_text,
        };
        assert(sections_view(y.detail_sections@) =~= secs.map_values(
            |s: SectionV| linked_section(resolved_section(s, nv), nv, i),
        ));
        assert(y@ == resolved_node(nv, i as int));
        nodes.push(y);
        i = i + 1;
        assert(rest@ =~= input.subrange(i as int, input.len() as int));
    }
    assert(nodes_view(nodes@) =~= Seq::new(input.len(), |i: int| resolved_node(nv, i)));
}

proof fn lemma_first_carrier_carries(nodes: Seq<NodeV>, name: Seq<char>, n: int)
    ensures
        first_carrier(nodes, name, n) matches Some(k) ==> carries(nodes[k], name),
    decreases n,
{
    if n > 0 {
        lemma_first_carrier_carries(nodes, name, n - 1);
    }
}

proof fn lemma_last_named_named(nodes: Seq<NodeV>, name: Seq<char>, n: int)
    ensures
        last_named(nodes, name, n) matches Some(k) ==> nodes[k].payload.short_name() == Some(name),
    decreases n,
{
    if n > 0 {
        lemma_last_named_named(nodes, name, n - 1);
    }
}

/// After resolution a jump target whose name some node carries points at a
/// node that carries it (a container target at a container of that name).
pub proof fn law_resolved_jump_points_at_name(nodes: Seq<NodeV>, j: JumpV)
    requires
        nodes.len() <= usize::MAX,
    ensures
        match resolved_jump(j, nodes) {
            JumpV::TreeNodeByIndex { index, short_name } => name_index(nodes, short_name) is Some ==> 0 <= index
                < nodes.len() && carries(nodes[index as int], short_name),
            JumpV::Dop { index, name } => name_index(nodes, name) is Some ==> 0 <= index < nodes.len()
                && carries(nodes[index as int], name),
            JumpV::Container { index, short_name } => container_index(nodes, short_name) is Some ==> 0
                <= index < nodes.len() && nodes[index as int].payload.short_name() == Some(short_name),
            JumpV::Parameter { .. } => true,
        },
{
    match j {
        JumpV::TreeNodeByIndex { index, short_name } => {
            lemma_first_carrier_bounds(nodes, short_name, nodes.len() as int);
            lemma_first_carrier_carries(nodes, short_name, nodes.len() as int);
        },
        JumpV::Dop { index, name } => {
            lemma_first_carrier_bounds(nodes, name, nodes.len() as int);
            lemma_first_carrier_carries(nodes, name, nodes.len() as int);
        },
        JumpV::Container { index, short_name } => {
            lemma_last_named_bounds(nodes, short_name, nodes.len() as int);
            lemma_last_named_named(nodes, short_name, nodes.len() as int);
        },
        JumpV::Parameter { .. } => {},
    }
}

// Resolving twice
/// Two node lists agree on everything the lookups read: length, texts,
/// short names, list types and parents.
pub open spec fn same_keys(a: Seq<NodeV>, b: Seq<NodeV>) -> bool {
    &&& a.len() == b.len()
    &&& forall|i: int|
        0 <= i < a.len() ==> {
            &&& (#[trigger] a[i]).text == b[i].text
            &&& a[i].payload.short_name() == b[i].payload.short_name()
            &&& a[i].payload.service_short_name() == b[i].payload.service_short_name()
            &&& a[i].payload.service_list_type() == b[i].payload.service_list_type()
            &&& a[i].parent_idx == b[i].parent_idx
        }
}

proof fn lemma_same_lookups(a: Seq<NodeV>, b: Seq<NodeV>, nm: Seq<char>, n: int)
    requires
        same_keys(a, b),
        n <= a.len(),
    ensures
        first_carrier(a, nm, n) == first_carrier(b, nm, n),
        last_named(a, nm, n) == last_named(b, nm, n),
    decreases n,
{
    if n > 0 {
        lemma_same_lookups(a, b, nm, n - 1);
        assert(a[n - 1].text == b[n - 1].text);
    }
}

proof fn lemma_same_children(a: Seq<NodeV>, b: Seq<NodeV>, parent: usize, slt: ServiceListType, n: int)
    requires
        same_keys(a, b),
        n <= a.len(),
    ensures
        first_child_in(a, parent, slt, n) == first_child_in(b, parent, slt, n),
    decreases n,
{
    if n > 0 {
        lemma_same_children(a, b, parent, slt, n - 1);
        assert(a[n - 1].text == b[n - 1].text);
    }
}

proof fn lemma_same_refs(a: Seq<NodeV>, b: Seq<NodeV>, names: Seq<Seq<char>>)
    requires
        same_keys(a, b),
    ensures
        refs_resolved(a, names) == refs_resolved(b, names),
    decreases names.len(),
{
    if names.len() > 0 {
        lemma_same_refs(a, b, names.drop_last());
        lemma_same_lookups(a, b, names.last(), a.len() as int);
    }
}

proof fn lemma_jump_twice(j: JumpV, a: Seq<NodeV>, b: Seq<NodeV>)
    requires
        same_keys(a, b),
    ensures
        resolved_jump(resolved_jump(j, a), b) == resolved_jump(j, a),
{
    match j {
        JumpV::TreeNodeByIndex { index, short_name } => lemma_same_lookups(a, b, short_name, a.len() as int),
        JumpV::Dop { index, name } => lemma_same_lookups(a, b, name, a.len() as int),
        JumpV::Container { index, short_name } => lemma_same_lookups(a, b, short_name, a.len() as int),
        JumpV::Parameter { .. } => {},
    }
}

proof fn lemma_cell_twice(c: CellV, a: Seq<NodeV>, b: Seq<NodeV>)
    requires
        same_keys(a, b),
    ensures
        resolved_cell(resolved_cell(c, a), b) == resolved_cell(c, a),
{
    if let Some(j) = c.jump_target {
        lemma_jump_twice(j, a, b);
    }
}

proof fn lemma_row_twice(r: RowV, a: Seq<NodeV>, b: Seq<NodeV>)
    requires
        same_keys(a, b),
    ensures
        resolved_row(resolved_row(r, a), b) == resolved_row(r, a),
{
    let once = resolved_row(r, a);
    assert forall|k: int| 0 <= k < r.cells.len() implies #[trigger] resolved_row(once, b).cells[k] == once.cells[k] by {
        lemma_cell_twice(r.cells[k], a, b);
    }
    assert(resolved_row(once, b).cells =~= once.cells);
}

proof fn lemma_content_twice(c: ContentV, a: Seq<NodeV>, b: Seq<NodeV>)
    requires
        same_keys(a, b),
    ensures
        resolved_content(resolved_content(c, a), b) == resolved_content(c, a),
    decreases c,
{
    match c {
        ContentV::Table { header, rows, constraints, use_row_selection } => {
            let once = rows.map_values(|r: RowV| resolved_row(r, a));
            let again = once.map_values(|r: RowV| resolved_row(r, b));
            assert forall|k: int| 0 <= k < rows.len() implies #[trigger] again[k] == once[k] by {
                lemma_row_twice(rows[k], a, b);
            }
            assert(again =~= once);
        },
        ContentV::Composite(subs) => {
            let once = resolved_content(c, a)->Composite_0;
            assert(once.len() == subs.len());
            let twice = resolved_content(ContentV::Composite(once), b)->Composite_0;
            assert(resolved_content(c, a) == ContentV::Composite(once));
            assert(twice.len() == once.len());
            assert forall|k: int| 0 <= k < subs.len() implies #[trigger] twice[k] == once[k] by {
                assert(once[k] == resolved_section(subs[k], a));
                lemma_content_twice(subs[k].content, a, b);
                assert(twice[k] == resolved_section(once[k], b));
            }
            assert(twice =~= once);
        },
        ContentV::PlainText(_) => {},
    }
}

proof fn lemma_linked_row_twice(r0: RowV, a: Seq<NodeV>, b: Seq<NodeV>, idx: usize)
    requires
        same_keys(a, b),
    ensures
        ({
            let once = linked_row(resolved_row(r0, a), a, idx);
            linked_row(resolved_row(once, b), b, idx) == once
        }),
{
    let r = resolved_row(r0, a);
    let once = linked_row(r, a, idx);
    lemma_row_twice(r0, a, b);
    assert(resolved_row(r, b) == r);
    if let Some(MetadataV::ChildElement { element_type }) = r.metadata {
        let slt = element_type.spec_service_list_type();
        lemma_same_children(a, b, idx, slt, a.len() as int);
        if let Some(c) = first_child_in(a, idx, slt, a.len() as int) {
            if r.cells.len() > 0 {
                lemma_first_child_bounds(a, idx, slt, a.len() as int);
                assert(a[c].text == b[c].text);
                let again = resolved_row(once, b);
                assert forall|k: int| 1 <= k < r.cells.len() implies #[trigger] again.cells[k] == r.cells[k] by {
                    lemma_cell_twice(r0.cells[k], a, b);
                }
                assert(linked_row(again, b, idx).cells =~= once.cells);
            }
        }
    }
}

proof fn lemma_first_child_bounds(nodes: Seq<NodeV>, parent: usize, slt: ServiceListType, n: int)
    ensures
        first_child_in(nodes, parent, slt, n) matches Some(k) ==> 0 <= k < n,
    decreases n,
{
    if n > 0 {
        lemma_first_child_bounds(nodes, parent, slt, n - 1);
    }
}

proof fn lemma_section_twice(s: SectionV, a: Seq<NodeV>, b: Seq<NodeV>, idx: usize)
    requires
        same_keys(a, b),
    ensures
        ({
            let once = linked_section(resolved_section(s, a), a, idx);
            linked_section(resolved_section(once, b), b, idx) == once
        }),
{
    let once = linked_section(resolved_section(s, a), a, idx);
    match s.content {
        ContentV::Table { header, rows, constraints, use_row_selection } => {
            let rs = once.content->Table_rows;
            let again = linked_section(resolved_section(once, b), b, idx).content->Table_rows;
            assert forall|k: int| 0 <= k < rows.len() implies #[trigger] again[k] == rs[k] by {
                lemma_linked_row_twice(rows[k], a, b, idx);
            }
            assert(again =~= rs);
        },
        _ => {
            lemma_content_twice(s.content, a, b);
        },
    }
}

/// Resolving the indices of a tree a second time changes nothing.
pub proof fn law_resolve_idempotent(nodes: Seq<NodeV>)
    ensures
        ({
            let once = Seq::new(nodes.len(), |i: int| resolved_node(nodes, i));
            Seq::new(once.len(), |i: int| resolved_node(once, i)) == once
        }),
{
    let once = Seq::new(nodes.len(), |i: int| resolved_node(nodes, i));
    assert(same_keys(nodes, once)) by {
        assert forall|i: int| 0 <= i < nodes.len() implies {
            &&& (#[trigger] nodes[i]).text == once[i].text
            &&& nodes[i].payload.short_name() == once[i].payload.short_name()
            &&& nodes[i].payload.service_short_name() == once[i].payload.service_short_name()
            &&& nodes[i].payload.service_list_type() == once[i].payload.service_list_type()
            &&& nodes[i].parent_idx == once[i].parent_idx
        } by {}
    }
    let twice = Seq::new(once.len(), |i: int| resolved_node(once, i));
    assert forall|i: int| 0 <= i < once.len() implies #[trigger] twice[i] == once[i] by {
        let n = nodes[i];
        match n.payload {
            crate::tree::types::PayloadV::Container { short_name, parent_ref_names, parent_ref_indices } => {
                lemma_same_refs(nodes, once, parent_ref_names);
            },
            _ => {},
        }
        let secs = n.detail_sections;
        let s1 = once[i].detail_sections;
        assert forall|k: int| 0 <= k < secs.len() implies #[trigger] twice[i].detail_sections[k] == s1[k] by {
            lemma_section_twice(secs[k], nodes, once, i as usize);
        }
        assert(twice[i].detail_sections =~= s1);
    }
    assert(twice =~= once);
}

proof fn lemma_first_carrier_least(nodes: Seq<NodeV>, name: Seq<char>, n: int)
    requires
        n <= nodes.len(),
    ensures
        first_carrier(nodes, name, n) matches Some(k) ==> forall|j: int| 0 <= j < k ==> !carries(#[trigger] nodes[j], name),
        first_carrier(nodes, name, n) is None ==> forall|j: int| 0 <= j < n ==> !carries(#[trigger] nodes[j], name),
    decreases n,
{
    if n > 0 {
        lemma_first_carrier_least(nodes, name, n - 1);
    }
}

proof fn lemma_last_named_greatest(nodes: Seq<NodeV>, name: Seq<char>, n: int)
    requires
        n <= nodes.len(),
    ensures
        last_named(nodes, name, n) matches Some(k) ==> forall|j: int|
            k < j < n ==> (#[trigger] nodes[j]).payload.short_name() != Some(name),
        last_named(nodes, name, n) is None ==> forall|j: int|
            0 <= j < n ==> (#[trigger] nodes[j]).payload.short_name() != Some(name),
    decreases n,
{
    if n > 0 {
        lemma_last_named_greatest(nodes, name, n - 1);
    }
}

/// The lookups by name: a name points at the first node that carries it (as
/// service name, short name or text), and a container name at the last node
/// with that short name; none when no node qualifies.
pub proof fn law_lookup_first_and_last(nodes: Seq<NodeV>, name: Seq<char>)
    ensures
        match name_index(nodes, name) {
            Some(k) => 0 <= k < nodes.len() && carries(nodes[k], name) && forall|j: int|
                0 <= j < k ==> !carries(#[trigger] nodes[j], name),
            None => forall|j: int| 0 <= j < nodes.len() ==> !carries(#[trigger] nodes[j], name),
        },
        match container_index(nodes, name) {
            Some(k) => 0 <= k < nodes.len() && nodes[k].payload.short_name() == Some(name) && forall|j: int|
                k < j < nodes.len() ==> (#[trigger] nodes[j]).payload.short_name() != Some(name),
            None => forall|j: int| 0 <= j < nodes.len() ==> (#[trigger] nodes[j]).payload.short_name() != Some(name),
        },
{
    let n = nodes.len() as int;
    lemma_first_carrier_bounds(nodes, name, n);
    lemma_first_carrier_carries(nodes, name, n);
    lemma_first_carrier_least(nodes, name, n);
    lemma_last_named_bounds(nodes, name, n);
    lemma_last_named_named(nodes, name, n);
    lemma_last_named_greatest(nodes, name, n);
}

/// A parent name that some container position answers.
pub open spec fn known_container(nodes: Seq<NodeV>) -> spec_fn(Seq<char>) -> bool {
    |nm: Seq<char>| container_index(nodes, nm) is Some
}

pub open spec fn container_pos(nodes: Seq<NodeV>) -> spec_fn(Seq<char>) -> usize {
    |nm: Seq<char>| container_index(nodes, nm)->Some_0 as usize
}

proof fn lemma_refs_resolved_filter(nodes: Seq<NodeV>, names: Seq<Seq<char>>)
    ensures
        refs_resolved(nodes, names) == names.filter(known_container(nodes)).map_values(container_pos(nodes)),
    decreases names.len(),
{
    if names.len() == 0 {
        assert(names.filter(known_container(nodes)) =~= Seq::<Seq<char>>::empty());
        assert(refs_resolved(nodes, names) =~= names.filter(known_container(nodes)).map_values(container_pos(nodes)));
    } else {
        let p = names.drop_last();
        lemma_refs_resolved_filter(nodes, p);
        assert(names =~= p.push(names.last()));
        p.lemma_filter_push(names.last(), known_container(nodes));
        assert(refs_resolved(nodes, names) =~= names.filter(known_container(nodes)).map_values(container_pos(nodes)));
    }
}

/// Resolution keeps each node's depth, text, flags, type, parent and diff
/// annotations, and its payload but for a container's parent positions:
/// those become, in the order of its parent names, the position of the last
/// node with each name, names that no node has left out.
pub proof fn law_resolved_node_keeps(nodes: Seq<NodeV>, i: int)
    requires
        0 <= i < nodes.len(),
    ensures
        ({
            let r = resolved_node(nodes, i);
            let n = nodes[i];
            &&& r.depth == n.depth && r.text == n.text && r.expanded == n.expanded && r.has_children == n.has_children
            &&& r.node_type == n.node_type && r.parent_idx == n.parent_idx
            &&& r.diff_status == n.diff_status && r.old_text == n.old_text
            &&& r.detail_sections.len() == n.detail_sections.len()
            &&& match n.payload {
                PayloadV::Container { short_name, parent_ref_names, .. } => r.payload == PayloadV::Container {
                    short_name,
                    parent_ref_names,
                    parent_ref_indices: parent_ref_names.filter(known_container(nodes)).map_values(container_pos(nodes)),
                },
                _ => r.payload == n.payload,
            }
        }),
{
    match nodes[i].payload {
        PayloadV::Container { short_name, parent_ref_names, .. } => {
            lemma_refs_resolved_filter(nodes, parent_ref_names);
        },
        _ => {},
    }
}

/// A section none of whose table rows names a child list is only resolved:
/// its jump targets are looked up again by name and nothing else changes.
pub proof fn law_unlinked_section(s: SectionV, nodes: Seq<NodeV>, idx: usize)
    requires
        forall|k: int|
            0 <= k < s.content->Table_rows.len() ==> !((#[trigger] s.content->Table_rows[k]).metadata matches Some(
                MetadataV::ChildElement { .. },
            )),
    ensures
        linked_section(resolved_section(s, nodes), nodes, idx) == resolved_section(s, nodes),
{
    let rs = resolved_section(s, nodes);
    match s.content {
        ContentV::Table { header, rows, constraints, use_row_selection } => {
            let rr = rows.map_values(|r: RowV| resolved_row(r, nodes));
            assert(rs.content == ContentV::Table { header, rows: rr, constraints, use_row_selection });
            assert(rr.map_values(|r: RowV| linked_row(r, nodes, idx)) =~= rr) by {
                assert forall|k: int| 0 <= k < rr.len() implies linked_row(rr[k], nodes, idx) == rr[k] by {
                    assert(rr[k].metadata == rows[k].metadata);
                }
            }
        },
        ContentV::Composite(_) => {},
        ContentV::PlainText(_) => {},
    }
}

/// `k` is the first node that carries `name`.
pub open spec fn first_carrying(nodes: Seq<NodeV>, name: Seq<char>, k: int) -> bool {
    0 <= k < nodes.len() && carries(nodes[k], name) && forall|j: int| 0 <= j < k ==> !carries(#[trigger] nodes[j], name)
}

/// `k` is the last node whose short name is `name`.
pub open spec fn last_named_at(nodes: Seq<NodeV>, name: Seq<char>, k: int) -> bool {
    0 <= k < nodes.len() && nodes[k].payload.short_name() == Some(name) && forall|j: int|
        k < j < nodes.len() ==> (#[trigger] nodes[j]).payload.short_name() != Some(name)
}

/// Some node carries `name`.
pub open spec fn some_carrier(nodes: Seq<NodeV>, name: Seq<char>) -> bool {
    exists|j: int| 0 <= j < nodes.len() && carries(#[trigger] nodes[j], name)
}

/// Some node has short name `name`.
pub open spec fn some_named(nodes: Seq<NodeV>, name: Seq<char>) -> bool {
    exists|j: int| 0 <= j < nodes.len() && (#[trigger] nodes[j]).payload.short_name() == Some(name)
}

/// Resolving a table cell keeps its text and type; a tree-node or data
/// operation jump ends at the first node carrying its name, a container
/// jump at the last node with that short name, each keeping its old index
/// when no node qualifies; a parameter jump is kept.
pub proof fn law_resolved_cell(c: CellV, nodes: Seq<NodeV>)
    requires
        nodes.len() <= usize::MAX,
    ensures
        resolved_cell(c, nodes).text == c.text,
        resolved_cell(c, nodes).cell_type == c.cell_type,
        match c.jump_target {
            None => resolved_cell(c, nodes).jump_target is None,
            Some(JumpV::Parameter { param_id }) => resolved_cell(c, nodes).jump_target == c.jump_target,
            Some(JumpV::TreeNodeByIndex { index, short_name }) => resolved_cell(c, nodes).jump_target matches Some(
                JumpV::TreeNodeByIndex { index: k, short_name: s },
            ) && s == short_name && (if some_carrier(nodes, short_name) {
                first_carrying(nodes, short_name, k as int)
            } else {
                k == index
            }),
            Some(JumpV::Dop { index, name }) => resolved_cell(c, nodes).jump_target matches Some(
                JumpV::Dop { index: k, name: s },
            ) && s == name && (if some_carrier(nodes, name) {
                first_carrying(nodes, name, k as int)
            } else {
                k == index
            }),
            Some(JumpV::Container { index, short_name }) => resolved_cell(c, nodes).jump_target matches Some(
                JumpV::Container { index: k, short_name: s },
            ) && s == short_name && (if some_named(nodes, short_name) {
                last_named_at(nodes, short_name, k as int)
            } else {
                k == index
            }),
        },
{
    match c.jump_target {
        Some(JumpV::TreeNodeByIndex { index, short_name }) => {
            law_lookup_first_and_last(nodes, short_name);
        },
        Some(JumpV::Dop { index, name }) => {
            law_lookup_first_and_last(nodes, name);
        },
        Some(JumpV::Container { index, short_name }) => {
            law_lookup_first_and_last(nodes, short_name);
        },
        _ => {},
    }
}

/// Resolution reaches every cell of every table row, in nested sections too,
/// and nothing else: table headers, column widths and texts stay.
pub proof fn law_resolved_content_cells(c: ContentV, nodes: Seq<NodeV>)
    ensures
        match c {
            ContentV::Table { header, rows, constraints, use_row_selection } => resolved_content(c, nodes) matches ContentV::Table {
                header: h,
                rows: rs,
                constraints: cs,
                use_row_selection: u,
            } && h == header && cs == constraints && u == use_row_selection && rs.len() == rows.len() && forall|
                i: int,
                k: int,
            |
                0 <= i < rows.len() && 0 <= k < rows[i].cells.len() ==> rs[i].cells.len() == rows[i].cells.len()
                    && #[trigger] rs[i].cells[k] == resolved_cell(#[trigger] rows[i].cells[k], nodes),
            ContentV::Composite(subs) => resolved_content(c, nodes) matches ContentV::Composite(r) && r.len()
                == subs.len() && forall|i: int|
                0 <= i < subs.len() ==> (#[trigger] r[i]).content == resolved_content(subs[i].content, nodes)
                    && r[i].title == subs[i].title,
            ContentV::PlainText(_) => resolved_content(c, nodes) == c,
        },
{
}

} // verus!
