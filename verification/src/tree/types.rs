//! Data model of the flat tree view and of the detail pane.
//!
//! Every type that holds text has a mathematical view (`@`) in which each
//! `String` is replaced by its sequence of characters and each `Vec` by the
//! sequence of the views of its items.  The contracts of the whole crate are
//! stated over these views.
use vstd::prelude::*;

verus! {

/// Sentinel value for an unset bit position in the database.
pub const BIT_POSITION_UNSET: u32 = 255;

/// Strongly-typed prefixes embedded in tree node text to distinguish categories
/// that share the same parent node (e.g. services vs. jobs inside a Diag-Comm).
#[derive(Clone, Copy, Debug, PartialEq, Eq, Structural)]
pub enum NodeTextPrefix {
    /// Prefix for diagnostic service nodes: `"[Service] "`.
    Service,
    /// Prefix for job nodes: `"[Job] "`.
    Job,
}

impl NodeTextPrefix {
    /// The text of the prefix.
    pub open spec fn label(self) -> Seq<char> {
        match self {
            NodeTextPrefix::Service => "[Service] "@,
            NodeTextPrefix::Job => "[Job] "@,
        }
    }

    pub fn as_str(self) -> (r: &'static str)
        ensures
            r@ == self.label(),
    {
        match self {
            NodeTextPrefix::Service => "[Service] ",
            NodeTextPrefix::Job => "[Job] ",
        }
    }
}

/// Type of top-level section in the tree hierarchy.
#[derive(Clone, Copy, Debug, PartialEq, Eq, Structural)]
pub enum SectionType {
    General,
    Variants,
    FunctionalGroups,
    EcuSharedData,
    Protocols,
}

/// Type of service list section.
#[derive(Clone, Copy, Debug, PartialEq, Eq, Structural)]
pub enum ServiceListType {
    ComParamRefs,
    DiagComms,
    FunctionalClasses,
    NegResponses,
    PosResponses,
    Requests,
    SDGs,
    StateCharts,
}

/// Type of node for styling and interaction purposes.
#[derive(Copy, Clone, Debug, PartialEq, Eq, Structural)]
pub enum NodeType {
    Container,
    SectionHeader,
    Service,
    ParentRefService,
    ParentRefs,
    Request,
    PosResponse,
    NegResponse,
    FunctionalClass,
    Job,
    Dop,
    Sdg,
    DopNormal,
    DopDtc,
    DopStructure,
    DopStaticField,
    DopDynamic,
    DopEndOfPdu,
    DopMux,
    DopEnvData,
    DopEnvDataDesc,
    Default,
}

impl NodeType {
    /// Service-entry node types: Service, ParentRefService, Request,
    /// PosResponse and NegResponse (not Job).
    pub open spec fn spec_is_service(self) -> bool {
        self is Service || self is ParentRefService || self is Request || self is PosResponse
            || self is NegResponse
    }

    /// Node types that live inside a Diag-Comms section: the service types
    /// plus Job.
    pub open spec fn spec_is_diagcomm(self) -> bool {
        self.spec_is_service() || self is Job
    }

    pub fn is_service(self) -> (r: bool)
        ensures
            r == self.spec_is_service(),
    {
        match self {
            NodeType::Service | NodeType::ParentRefService | NodeType::Request
            | NodeType::PosResponse | NodeType::NegResponse => true,
            _ => false,
        }
    }

    pub fn is_diagcomm(self) -> (r: bool)
        ensures
            r == self.spec_is_diagcomm(),
    {
        self.is_service() || matches!(self, NodeType::Job)
    }
}

impl Default for NodeType {
    fn default() -> (r: Self)
        ensures
            r == NodeType::Default,
    {
        NodeType::Default
    }
}

/// Diff status for comparison mode.
#[derive(Copy, Clone, Debug, PartialEq, Eq, Structural)]
pub enum DiffStatus {
    Added,
    Removed,
    Modified,
    Unchanged,
}

/// Extra data that only applies to certain [`NodeType`] variants.
#[derive(Clone, Debug)]
pub enum NodePayload {
    /// Container (variant / functional group / ECU shared data layer).
    Container { short_name: String, parent_ref_names: Vec<String>, parent_ref_indices: Vec<usize> },
    /// Top-level section header (depth 0).
    SectionHeader { section_type: SectionType },
    /// Service-list section header (e.g. Diag-Comms, Requests, ...).
    ServiceListHeader { service_list_type: ServiceListType },
    /// Diagcomm node (Service, ParentRefService, Request, Response, Job).
    DiagComm { service_short_name: String },
    /// Functional-class node.
    FunctionalClass { short_name: String },
    /// Parameter node.
    Parameter { param_id: u32, short_name: String },
    /// Fallback for nodes that carry no extra data.
    Empty,
}

/// Mathematical view of a [`NodePayload`].
pub ghost enum PayloadV {
    Container { short_name: Seq<char>, parent_ref_names: Seq<Seq<char>>, parent_ref_indices: Seq<usize> },
    SectionHeader { section_type: SectionType },
    ServiceListHeader { service_list_type: ServiceListType },
    DiagComm { service_short_name: Seq<char> },
    FunctionalClass { short_name: Seq<char> },
    Parameter { param_id: u32, short_name: Seq<char> },
    Empty,
}

pub open spec fn strings_view(v: Seq<String>) -> Seq<Seq<char>> {
    v.map_values(|s: String| s@)
}

impl View for NodePayload {
    type V = PayloadV;

    open spec fn view(&self) -> PayloadV {
        match self {
            NodePayload::Container { short_name, parent_ref_names, parent_ref_indices } =>
                PayloadV::Container {
                short_name: short_name@,
                parent_ref_names: strings_view(parent_ref_names@),
                parent_ref_indices: parent_ref_indices@,
            },
            NodePayload::SectionHeader { section_type } => PayloadV::SectionHeader {
                section_type: *section_type,
            },
            NodePayload::ServiceListHeader { service_list_type } => PayloadV::ServiceListHeader {
                service_list_type: *service_list_type,
            },
            NodePayload::DiagComm { service_short_name } => PayloadV::DiagComm {
                service_short_name: service_short_name@,
            },
            NodePayload::FunctionalClass { short_name } => PayloadV::FunctionalClass {
                short_name: short_name@,
            },
            NodePayload::Parameter { param_id, short_name } => PayloadV::Parameter {
                param_id: *param_id,
                short_name: short_name@,
            },
            NodePayload::Empty => PayloadV::Empty,
        }
    }
}

impl Default for NodePayload {
    fn default() -> (r: Self)
        ensures
            r is Empty,
    {
        NodePayload::Empty
    }
}

/// A single row in the flat tree view. Depth controls indentation, and
/// `expanded` / `has_children` drive the collapse/expand behaviour.
#[derive(Debug)]
pub struct TreeNode {
    /// Indentation level in the tree hierarchy (0 = root).
    pub depth: usize,
    /// Display text shown in the tree view.
    pub text: String,
    /// Whether this node is currently expanded to show its children.
    pub expanded: bool,
    /// Whether this node has child nodes that can be expanded.
    pub has_children: bool,
    /// Detail sections displayed when this node is selected.
    pub detail_sections: Vec<DetailSectionData>,
    /// Classification of this node for styling and interaction.
    pub node_type: NodeType,
    /// Enum-discriminated extra data for this node type.
    pub payload: NodePayload,
    /// Index of this node's direct parent; `None` for root nodes.
    pub parent_idx: Option<usize>,
    /// Diff annotation for comparison mode. `None` in browse mode.
    pub diff_status: Option<DiffStatus>,
    /// Display text from the old tree when it differs from the new text.
    pub old_text: Option<String>,
}

/// Mathematical view of a [`TreeNode`].
pub ghost struct NodeV {
    pub depth: usize,
    pub text: Seq<char>,
    pub expanded: bool,
    pub has_children: bool,
    pub detail_sections: Seq<SectionV>,
    pub node_type: NodeType,
    pub payload: PayloadV,
    pub parent_idx: Option<usize>,
    pub diff_status: Option<DiffStatus>,
    pub old_text: Option<Seq<char>>,
}

pub open spec fn opt_string_view(o: Option<String>) -> Option<Seq<char>> {
    match o {
        Some(s) => Some(s@),
        None => None,
    }
}

pub open spec fn nodes_view(v: Seq<TreeNode>) -> Seq<NodeV> {
    v.map_values(|n: TreeNode| n@)
}

impl View for TreeNode {
    type V = NodeV;

    open spec fn view(&self) -> NodeV {
        NodeV {
            depth: self.depth,
            text: self.text@,
            expanded: self.expanded,
            has_children: self.has_children,
            detail_sections: sections_view(self.detail_sections@),
            node_type: self.node_type,
            payload: self.payload@,
            parent_idx: self.parent_idx,
            diff_status: self.diff_status,
            old_text: opt_string_view(self.old_text),
        }
    }
}

impl PayloadV {
    pub open spec fn section_type(self) -> Option<SectionType> {
        match self {
            PayloadV::SectionHeader { section_type } => Some(section_type),
            _ => None,
        }
    }

    pub open spec fn service_list_type(self) -> Option<ServiceListType> {
        match self {
            PayloadV::ServiceListHeader { service_list_type } => Some(service_list_type),
            _ => None,
        }
    }

    pub open spec fn param_id(self) -> Option<u32> {
        match self {
            PayloadV::Parameter { param_id, .. } => Some(param_id),
            _ => None,
        }
    }

    pub open spec fn parent_ref_indices(self) -> Seq<usize> {
        match self {
            PayloadV::Container { parent_ref_indices, .. } => parent_ref_indices,
            _ => Seq::empty(),
        }
    }

    /// Canonical short name of Container, FunctionalClass and Parameter nodes.
    pub open spec fn short_name(self) -> Option<Seq<char>> {
        match self {
            PayloadV::Container { short_name, .. } => Some(short_name),
            PayloadV::FunctionalClass { short_name } => Some(short_name),
            PayloadV::Parameter { short_name, .. } => Some(short_name),
            _ => None,
        }
    }

    /// Canonical short name of diagcomm nodes.
    pub open spec fn service_short_name(self) -> Option<Seq<char>> {
        match self {
            PayloadV::DiagComm { service_short_name } => Some(service_short_name),
            _ => None,
        }
    }
}

impl TreeNode {
    /// Returns the [`SectionType`] if this is a `SectionHeader` node.
    pub fn section_type(&self) -> (r: Option<SectionType>)
        ensures
            r == self.payload@.section_type(),
    {
        match &self.payload {
            NodePayload::SectionHeader { section_type } => Some(*section_type),
            _ => None,
        }
    }

    /// Returns the [`ServiceListType`] if this is a service-list header.
    pub fn service_list_type(&self) -> (r: Option<ServiceListType>)
        ensures
            r == self.payload@.service_list_type(),
    {
        match &self.payload {
            NodePayload::ServiceListHeader { service_list_type } => Some(*service_list_type),
            _ => None,
        }
    }

    /// Returns the parameter ID if this is a `Parameter` node.
    pub fn param_id(&self) -> (r: Option<u32>)
        ensures
            r == self.payload@.param_id(),
    {
        match &self.payload {
            NodePayload::Parameter { param_id, .. } => Some(*param_id),
            _ => None,
        }
    }

    /// Returns the resolved parent-ref container tree indices.
    pub fn parent_ref_indices(&self) -> (r: &[usize])
        ensures
            r@ == self.payload@.parent_ref_indices(),
    {
        match &self.payload {
            NodePayload::Container { parent_ref_indices, .. } => parent_ref_indices.as_slice(),
            _ => &[],
        }
    }

    /// Returns the canonical short name for nodes that carry one
    /// (`Container`, `FunctionalClass`, `Parameter`).
    pub fn short_name(&self) -> (r: Option<&str>)
        ensures
            r is Some <==> self.payload@.short_name() is Some,
            r matches Some(s) ==> s@ == self.payload@.short_name()->0,
    {
        match &self.payload {
            NodePayload::Container { short_name, .. } => Some(short_name.as_str()),
            NodePayload::FunctionalClass { short_name } => Some(short_name.as_str()),
            NodePayload::Parameter { short_name, .. } => Some(short_name.as_str()),
            _ => None,
        }
    }

    /// Returns the canonical short name for diagcomm nodes.
    pub fn service_short_name(&self) -> (r: Option<&str>)
        ensures
            r is Some <==> self.payload@.service_short_name() is Some,
            r matches Some(s) ==> s@ == self.payload@.service_short_name()->0,
    {
        match &self.payload {
            NodePayload::DiagComm { service_short_name } => Some(service_short_name.as_str()),
            _ => None,
        }
    }
}

/// Type of detail section for logic and navigation.
#[derive(Clone, Copy, Debug, PartialEq, Eq, Hash, Structural)]
pub enum DetailSectionType {
    Header,
    Overview,
    Services,
    Requests,
    PosResponses,
    NegResponses,
    ComParams,
    States,
    RelatedRefs,
    FunctionalClass,
    NotInheritedDiagComms,
    NotInheritedDops,
    NotInheritedTables,
    NotInheritedVariables,
    Custom,
}

impl Default for DetailSectionType {
    fn default() -> (r: Self)
        ensures
            r == DetailSectionType::Custom,
    {
        DetailSectionType::Custom
    }
}

/// Type of row for interaction purposes.
#[derive(Clone, Copy, Debug, PartialEq, Eq, Structural)]
pub enum DetailRowType {
    Normal,
    Header,
    InheritedFrom,
    ChildElement,
}

impl Default for DetailRowType {
    fn default() -> (r: Self)
        ensures
            r == DetailRowType::Normal,
    {
        DetailRowType::Normal
    }
}

/// Type of child element in a variant summary section.
#[derive(Clone, Copy, Debug, PartialEq, Eq, Structural)]
pub enum ChildElementType {
    ComParamRefs,
    DiagComms,
    FunctionalClasses,
    NegResponses,
    PosResponses,
    Requests,
    SDGs,
    StateCharts,
}

impl ChildElementType {
    /// The display name of the element type.
    pub open spec fn label(self) -> Seq<char> {
        match self {
            ChildElementType::ComParamRefs => "ComParam Refs"@,
            ChildElementType::DiagComms => "Diag-Comms"@,
            ChildElementType::FunctionalClasses => "Functional Classes"@,
            ChildElementType::NegResponses => "Neg-Responses"@,
            ChildElementType::PosResponses => "Pos-Responses"@,
            ChildElementType::Requests => "Requests"@,
            ChildElementType::SDGs => "SDGs"@,
            ChildElementType::StateCharts => "State Charts"@,
        }
    }

    /// The service-list type with the same name.
    pub open spec fn spec_service_list_type(self) -> ServiceListType {
        match self {
            ChildElementType::ComParamRefs => ServiceListType::ComParamRefs,
            ChildElementType::DiagComms => ServiceListType::DiagComms,
            ChildElementType::FunctionalClasses => ServiceListType::FunctionalClasses,
            ChildElementType::NegResponses => ServiceListType::NegResponses,
            ChildElementType::PosResponses => ServiceListType::PosResponses,
            ChildElementType::Requests => ServiceListType::Requests,
            ChildElementType::SDGs => ServiceListType::SDGs,
            ChildElementType::StateCharts => ServiceListType::StateCharts,
        }
    }

    /// Return the display name as a static string without allocating.
    pub fn as_str(&self) -> (r: &'static str)
        ensures
            r@ == self.label(),
    {
        match self {
            ChildElementType::ComParamRefs => "ComParam Refs",
            ChildElementType::DiagComms => "Diag-Comms",
            ChildElementType::FunctionalClasses => "Functional Classes",
            ChildElementType::NegResponses => "Neg-Responses",
            ChildElementType::PosResponses => "Pos-Responses",
            ChildElementType::Requests => "Requests",
            ChildElementType::SDGs => "SDGs",
            ChildElementType::StateCharts => "State Charts",
        }
    }

    /// The display name as an owned string (the text shown to users).
    pub fn to_string(&self) -> (r: String)
        ensures
            r@ == self.label(),
    {
        self.as_str().to_owned()
    }

    /// Map this element type to the corresponding [`ServiceListType`].
    pub fn to_service_list_type(&self) -> (r: ServiceListType)
        ensures
            r == self.spec_service_list_type(),
    {
        match self {
            ChildElementType::ComParamRefs => ServiceListType::ComParamRefs,
            ChildElementType::DiagComms => ServiceListType::DiagComms,
            ChildElementType::FunctionalClasses => ServiceListType::FunctionalClasses,
            ChildElementType::NegResponses => ServiceListType::NegResponses,
            ChildElementType::PosResponses => ServiceListType::PosResponses,
            ChildElementType::Requests => ServiceListType::Requests,
            ChildElementType::SDGs => ServiceListType::SDGs,
            ChildElementType::StateCharts => ServiceListType::StateCharts,
        }
    }

    /// Check if a tree node's service-list type matches this element type.
    pub fn matches_node(&self, node: &TreeNode) -> (r: bool)
        ensures
            r == (node.payload@.service_list_type() == Some(self.spec_service_list_type())),
    {
        match node.service_list_type() {
            Some(t) => t == self.to_service_list_type(),
            None => false,
        }
    }
}

/// Metadata attached to special rows for navigation lookups.
#[derive(Clone, Debug)]
pub enum RowMetadata {
    /// Row represents an inherited element with the source layer name.
    InheritedFrom { layer_name: String },
    /// Row represents a child element of a specific type.
    ChildElement { element_type: ChildElementType },
    /// Row represents a parameter with the given database ID.
    ParameterRow { param_id: u32 },
}

pub ghost enum MetadataV {
    InheritedFrom { layer_name: Seq<char> },
    ChildElement { element_type: ChildElementType },
    ParameterRow { param_id: u32 },
}

impl View for RowMetadata {
    type V = MetadataV;

    open spec fn view(&self) -> MetadataV {
        match self {
            RowMetadata::InheritedFrom { layer_name } => MetadataV::InheritedFrom {
                layer_name: layer_name@,
            },
            RowMetadata::ChildElement { element_type } => MetadataV::ChildElement {
                element_type: *element_type,
            },
            RowMetadata::ParameterRow { param_id } => MetadataV::ParameterRow {
                param_id: *param_id,
            },
        }
    }
}

/// Type of cell content for interaction purposes
#[derive(Copy, Clone, Debug, PartialEq, Eq, Structural)]
pub enum CellType {
    Text,
    DopReference,
    NumericValue,
    ParameterName,
}

impl Default for CellType {
    fn default() -> (r: Self)
        ensures
            r == CellType::Text,
    {
        CellType::Text
    }
}

/// Classification of the navigation target for a jump cell.
#[derive(Clone, Debug)]
pub enum CellJumpTargetType {
    /// Navigate to a parameter node by its ID
    Parameter { param_id: u32 },
    /// Navigate to a DOP node by its resolved tree index.
    Dop { index: usize, name: String },
    /// Navigate directly to a tree node by its stored index, verified by
    /// its canonical short name.
    TreeNodeByIndex { index: usize, short_name: String },
    /// Navigate to a top-level Container node by its canonical short name.
    Container { index: usize, short_name: String },
}

pub ghost enum JumpV {
    Parameter { param_id: u32 },
    Dop { index: usize, name: Seq<char> },
    TreeNodeByIndex { index: usize, short_name: Seq<char> },
    Container { index: usize, short_name: Seq<char> },
}

impl View for CellJumpTargetType {
    type V = JumpV;

    open spec fn view(&self) -> JumpV {
        match self {
            CellJumpTargetType::Parameter { param_id } => JumpV::Parameter { param_id: *param_id },
            CellJumpTargetType::Dop { index, name } => JumpV::Dop { index: *index, name: name@ },
            CellJumpTargetType::TreeNodeByIndex { index, short_name } => JumpV::TreeNodeByIndex {
                index: *index,
                short_name: short_name@,
            },
            CellJumpTargetType::Container { index, short_name } => JumpV::Container {
                index: *index,
                short_name: short_name@,
            },
        }
    }
}

/// Per-cell jump target metadata: tells the navigation system where clicking
/// a jump cell should navigate to.
#[derive(Clone, Debug)]
pub struct CellJumpTarget {
    /// What kind of navigation this cell performs.
    pub target_type: CellJumpTargetType,
}

impl View for CellJumpTarget {
    type V = JumpV;

    open spec fn view(&self) -> JumpV {
        self.target_type@
    }
}

impl CellJumpTarget {
    /// Create a new jump target.
    pub fn new(target_type: CellJumpTargetType) -> (r: Self)
        ensures
            r.target_type == target_type,
    {
        CellJumpTarget { target_type }
    }
}

/// A single cell in a detail table row.
#[derive(Clone, Debug)]
pub struct DetailCell {
    /// Display text of the cell.
    pub text: String,
    /// Content type of the cell (controls styling).
    pub cell_type: CellType,
    /// Jump target for navigation. `None` means not navigable.
    pub jump_target: Option<CellJumpTarget>,
}

pub ghost struct CellV {
    pub text: Seq<char>,
    pub cell_type: CellType,
    pub jump_target: Option<JumpV>,
}

impl View for DetailCell {
    type V = CellV;

    open spec fn view(&self) -> CellV {
        CellV {
            text: self.text@,
            cell_type: self.cell_type,
            jump_target: match self.jump_target {
                Some(j) => Some(j@),
                None => None,
            },
        }
    }
}

pub open spec fn cells_view(v: Seq<DetailCell>) -> Seq<CellV> {
    v.map_values(|c: DetailCell| c@)
}

impl DetailCell {
    /// Create a cell with the given text and type, no jump target.
    pub fn new(text: &str, cell_type: CellType) -> (r: Self)
        ensures
            r@ == (CellV { text: text@, cell_type, jump_target: None }),
    {
        DetailCell { text: text.to_owned(), cell_type, jump_target: None }
    }

    /// Create a plain text cell.
    pub fn text(text: &str) -> (r: Self)
        ensures
            r@ == (CellV { text: text@, cell_type: CellType::Text, jump_target: None }),
    {
        Self::new(text, CellType::Text)
    }

    /// Attach a jump target to this cell (builder pattern).
    pub fn with_jump(self, target: CellJumpTarget) -> (r: Self)
        ensures
            r@ == (CellV { jump_target: Some(target@), ..self@ }),
    {
        let mut s = self;
        s.jump_target = Some(target);
        s
    }
}

/// A row in a detail table.
#[derive(Clone, Debug)]
pub struct DetailRow {
    /// Column cells for this row.
    pub cells: Vec<DetailCell>,
    /// Indentation level for nested display.
    pub indent: usize,
    /// Semantic type of this row for interaction handling.
    pub row_type: DetailRowType,
    /// Optional metadata for navigation lookups.
    pub metadata: Option<RowMetadata>,
    /// Diff status for comparison mode.  `None` in browse mode.
    pub diff_status: Option<DiffStatus>,
}

pub ghost struct RowV {
    pub cells: Seq<CellV>,
    pub indent: usize,
    pub row_type: DetailRowType,
    pub metadata: Option<MetadataV>,
    pub diff_status: Option<DiffStatus>,
}

impl View for DetailRow {
    type V = RowV;

    open spec fn view(&self) -> RowV {
        RowV {
            cells: cells_view(self.cells@),
            indent: self.indent,
            row_type: self.row_type,
            metadata: match self.metadata {
                Some(m) => Some(m@),
                None => None,
            },
            diff_status: self.diff_status,
        }
    }
}

pub open spec fn rows_view(v: Seq<DetailRow>) -> Seq<RowV> {
    v.map_values(|r: DetailRow| r@)
}

/// Column constraint for table layout
#[derive(Clone, Copy, Debug, PartialEq, Eq, Structural)]
pub enum ColumnConstraint {
    /// Fixed width in characters
    Fixed(u16),
    /// Percentage of available width
    Percentage(u16),
}

/// Different types of content that can be displayed in a detail section
#[derive(Debug)]
pub enum DetailContent {
    /// Plain text lines (no table structure)
    PlainText(Vec<String>),
    /// A table with header, data rows, and column constraints
    Table {
        header: DetailRow,
        rows: Vec<DetailRow>,
        constraints: Vec<ColumnConstraint>,
        use_row_selection: bool,
    },
    /// Multiple subsections within a single tab, each with its own title and content
    Composite(Vec<DetailSectionData>),
}

pub ghost enum ContentV {
    PlainText(Seq<Seq<char>>),
    Table {
        header: RowV,
        rows: Seq<RowV>,
        constraints: Seq<ColumnConstraint>,
        use_row_selection: bool,
    },
    Composite(Seq<SectionV>),
}

/// A detail section with a title and content.
#[derive(Debug)]
pub struct DetailSectionData {
    /// Display title of this section (shown as tab label).
    pub title: String,
    /// Body content (table, plain text, or composite).
    pub content: DetailContent,
    /// If true, this section is rendered as a header above tabs, not as a tab itself
    pub render_as_header: bool,
    /// Type of section for logic purposes
    pub section_type: DetailSectionType,
    /// Optional pre-computed byte/bit pattern rows for inline grid rendering.
    pub byte_pattern_rows: Option<Vec<DetailRow>>,
}

pub ghost struct SectionV {
    pub title: Seq<char>,
    pub content: ContentV,
    pub render_as_header: bool,
    pub section_type: DetailSectionType,
    pub byte_pattern_rows: Option<Seq<RowV>>,
}

pub open spec fn content_view(c: DetailContent) -> ContentV
    decreases c,
{
    match c {
        DetailContent::PlainText(lines) => ContentV::PlainText(strings_view(lines@)),
        DetailContent::Table { header, rows, constraints, use_row_selection } => ContentV::Table {
            header: header@,
            rows: rows_view(rows@),
            constraints: constraints@,
            use_row_selection,
        },
        DetailContent::Composite(subs) => ContentV::Composite(
            Seq::new(
                subs@.len(),
                |i: int|
                    {
                        if 0 <= i < subs@.len() {
                            proof {
                                vstd::std_specs::vec::axiom_vec_index_decreases(subs, i);
                            }
                            section_view(subs@[i])
                        } else {
                            arbitrary()
                        }
                    },
            ),
        ),
    }
}

pub open spec fn section_view(s: DetailSectionData) -> SectionV
    decreases s,
{
    SectionV {
        title: s.title@,
        content: content_view(s.content),
        render_as_header: s.render_as_header,
        section_type: s.section_type,
        byte_pattern_rows: match s.byte_pattern_rows {
            Some(r) => Some(rows_view(r@)),
            None => None,
        },
    }
}

pub open spec fn sections_view(v: Seq<DetailSectionData>) -> Seq<SectionV> {
    v.map_values(|s: DetailSectionData| section_view(s))
}

/// The view of a composite content lists the views of its sections.
pub proof fn lemma_composite_view(c: DetailContent)
    requires
        c is Composite,
    ensures
        content_view(c) is Composite,
        content_view(c)->Composite_0.len() == c->Composite_0@.len(),
        forall|k: int|
            0 <= k < c->Composite_0@.len() ==> #[trigger] content_view(c)->Composite_0[k]
                == section_view(c->Composite_0@[k]),
{
}

impl View for DetailContent {
    type V = ContentV;

    open spec fn view(&self) -> ContentV {
        content_view(*self)
    }
}

impl View for DetailSectionData {
    type V = SectionV;

    open spec fn view(&self) -> SectionV {
        section_view(*self)
    }
}

/// The first table of a content, looking through `Composite` wrappers in order.
pub open spec fn first_table_v(c: ContentV) -> Option<(RowV, Seq<RowV>, Seq<ColumnConstraint>, bool)>
    decreases c, 0nat,
{
    match c {
        ContentV::Table { header, rows, constraints, use_row_selection } => Some(
            (header, rows, constraints, use_row_selection),
        ),
        ContentV::Composite(subs) => first_table_in(subs, 0),
        ContentV::PlainText(_) => None,
    }
}

/// The first table among the sections `subs[from..]`.
pub open spec fn first_table_in(subs: Seq<SectionV>, from: int) -> Option<
    (RowV, Seq<RowV>, Seq<ColumnConstraint>, bool),
>
    decreases subs, subs.len() - from,
{
    if from < 0 || from >= subs.len() {
        None
    } else {
        match first_table_v(subs[from].content) {
            Some(t) => Some(t),
            None => first_table_in(subs, from + 1),
        }
    }
}

impl Default for DetailContent {
    fn default() -> (r: Self)
        ensures
            r@ == ContentV::PlainText(Seq::empty()),
    {
        let r = DetailContent::PlainText(Vec::new());
        proof {
            assert(strings_view(Seq::<String>::empty()) =~= Seq::empty());
        }
        r
    }
}

impl DetailContent {
    /// Locate the first `Table`, looking through `Composite` wrappers.
    pub fn first_table(&self) -> (r: Option<(&DetailRow, &[DetailRow], &[ColumnConstraint], bool)>)
        ensures
            r is Some <==> first_table_v(self@) is Some,
            r matches Some(t) ==> first_table_v(self@) == Some(
                (t.0@, rows_view(t.1@), t.2@, t.3),
            ),
        decreases self,
    {
        match self {
            DetailContent::Table { header, rows, constraints, use_row_selection } => Some(
                (header, rows.as_slice(), constraints.as_slice(), *use_row_selection),
            ),
            DetailContent::Composite(subs) => {
                proof {
                    lemma_composite_view(*self);
                }
                let ghost sv = self@->Composite_0;
                let mut i: usize = 0;
                while i < subs.len()
                    invariant
                        0 <= i <= subs.len(),
                        *self is Composite,
                        subs == self->Composite_0,
                        sv == self@->Composite_0,
                        sv.len() == subs@.len(),
                        forall|k: int| 0 <= k < subs@.len() ==> #[trigger] sv[k] == section_view(subs@[k]),
                        first_table_v(self@) == first_table_in(sv, i as int),
                    decreases subs.len() - i,
                {
                    proof {
                        vstd::std_specs::vec::axiom_vec_index_decreases(*subs, i as int);
                        assert(decreases_to!(*self => subs@[i as int].content));
                    }
                    let t = subs[i].content.first_table();
                    assert(sv[i as int].content == subs@[i as int].content@);
                    if t.is_some() {
                        return t;
                    }
                    i = i + 1;
                }
                None
            },
            DetailContent::PlainText(_) => None,
        }
    }

    /// Get a reference to the table rows, looking through `Composite` to find the first `Table`.
    pub fn table_rows(&self) -> (r: Option<&[DetailRow]>)
        ensures
            r is Some <==> first_table_v(self@) is Some,
            r matches Some(rows) ==> rows_view(rows@) == (first_table_v(self@)->0).1,
    {
        match self.first_table() {
            Some(t) => Some(t.1),
            None => None,
        }
    }

    /// Get the table constraints, looking through `Composite` to find the first `Table`.
    pub fn table_constraints(&self) -> (r: Option<&[ColumnConstraint]>)
        ensures
            r is Some <==> first_table_v(self@) is Some,
            r matches Some(c) ==> c@ == (first_table_v(self@)->0).2,
    {
        match self.first_table() {
            Some(t) => Some(t.2),
            None => None,
        }
    }

    /// Get `use_row_selection`, looking through `Composite` to find the first `Table`.
    pub fn table_use_row_selection(&self) -> (r: Option<bool>)
        ensures
            r is Some <==> first_table_v(self@) is Some,
            r matches Some(u) ==> u == (first_table_v(self@)->0).3,
    {
        match self.first_table() {
            Some(t) => Some(t.3),
            None => None,
        }
    }

    /// Get the table header, looking through `Composite` to find the first `Table`.
    pub fn table_header(&self) -> (r: Option<&DetailRow>)
        ensures
            r is Some <==> first_table_v(self@) is Some,
            r matches Some(h) ==> h@ == (first_table_v(self@)->0).0,
    {
        match self.first_table() {
            Some(t) => Some(t.0),
            None => None,
        }
    }
}

impl DetailSectionData {
    /// Create a new `DetailSectionData` with Custom type by default
    pub fn new(title: String, content: DetailContent, render_as_header: bool) -> (r: Self)
        ensures
            r.title == title,
            r.content == content,
            r.render_as_header == render_as_header,
            r.section_type == DetailSectionType::Custom,
            r.byte_pattern_rows is None,
    {
        DetailSectionData {
            title,
            content,
            render_as_header,
            section_type: DetailSectionType::Custom,
            byte_pattern_rows: None,
        }
    }

    /// Create with a specific section type
    pub fn with_type(self, section_type: DetailSectionType) -> (r: Self)
        ensures
            r == (DetailSectionData { section_type, ..self }),
    {
        let mut s = self;
        s.section_type = section_type;
        s
    }

    /// Attach pre-computed byte/bit pattern rows for inline grid rendering.
    pub fn with_byte_pattern_rows(self, rows: Vec<DetailRow>) -> (r: Self)
        ensures
            r == (DetailSectionData { byte_pattern_rows: Some(rows), ..self }),
    {
        let mut s = self;
        s.byte_pattern_rows = Some(rows);
        s
    }
}

impl DetailRow {
    /// Create a normal data row from pre-built cells.
    pub fn normal(cells: Vec<DetailCell>, indent: usize) -> (r: Self)
        ensures
            r.cells == cells,
            r.indent == indent,
            r.row_type == DetailRowType::Normal,
            r.metadata is None,
            r.diff_status is None,
    {
        DetailRow { cells, indent, row_type: DetailRowType::Normal, metadata: None, diff_status: None }
    }

    /// Create a table header row from pre-built cells.
    pub fn header(cells: Vec<DetailCell>) -> (r: Self)
        ensures
            r.cells == cells,
            r.indent == 0,
            r.row_type == DetailRowType::Header,
            r.metadata is None,
            r.diff_status is None,
    {
        DetailRow { cells, indent: 0, row_type: DetailRowType::Header, metadata: None, diff_status: None }
    }

    /// Create an "Inherited From" navigation row.
    /// `container_index` is the tree index of the parent container, or
    /// `None` when the container has not been pushed yet.
    pub fn inherited_from(layer_name: String, container_index: Option<usize>) -> (r: Self)
        ensures
            r@ == (RowV {
                cells: seq![
                    CellV { text: "Inherited From"@, cell_type: CellType::Text, jump_target: None },
                    CellV {
                        text: layer_name@,
                        cell_type: CellType::ParameterName,
                        jump_target: Some(JumpV::TreeNodeByIndex {
                            index: match container_index { Some(i) => i, None => usize::MAX },
                            short_name: layer_name@,
                        }),
                    },
                ],
                indent: 0,
                row_type: DetailRowType::InheritedFrom,
                metadata: Some(MetadataV::InheritedFrom { layer_name: layer_name@ }),
                diff_status: None,
            }),
    {
        let index = match container_index {
            Some(i) => i,
            None => usize::MAX,
        };
        let jump = CellJumpTarget::new(
            CellJumpTargetType::TreeNodeByIndex { index, short_name: layer_name.clone() },
        );
        let c0 = DetailCell::text("Inherited From");
        let c1 = DetailCell::new(layer_name.as_str(), CellType::ParameterName).with_jump(jump);
        let cells = vec![c0, c1];
        let r = DetailRow {
            cells,
            indent: 0,
            row_type: DetailRowType::InheritedFrom,
            metadata: Some(RowMetadata::InheritedFrom { layer_name }),
            diff_status: None,
        };
        proof {
            assert(r.cells@ == seq![c0, c1]);
            assert(cells_view(r.cells@) =~= seq![c0@, c1@]);
            assert(c1@.jump_target == Some(JumpV::TreeNodeByIndex { index, short_name: layer_name@ }));
            assert(r@.metadata == Some(MetadataV::InheritedFrom { layer_name: layer_name@ }));
            assert(r@.cells =~= seq![
                CellV { text: "Inherited From"@, cell_type: CellType::Text, jump_target: None },
                CellV {
                    text: layer_name@,
                    cell_type: CellType::ParameterName,
                    jump_target: Some(JumpV::TreeNodeByIndex {
                        index: match container_index { Some(i) => i, None => usize::MAX },
                        short_name: layer_name@,
                    }),
                },
            ]);
        }
        r
    }
    /// Convenience: get the text of cell at `idx`, or `""` if out of bounds.
    pub fn cell_text(&self, idx: usize) -> (r: &str)
        ensures
            r@ == if idx < self.cells@.len() { self.cells@[idx as int].text@ } else { Seq::empty() },
    {
        if idx < self.cells.len() {
            self.cells[idx].text.as_str()
        } else {
            proof {
                reveal_strlit("");
            }
            ""
        }
    }
}

/// Helper to create a plain text detail section
pub fn lines_to_single_section(title: &str, lines: Vec<String>) -> (r: DetailSectionData)
    ensures
        r.title@ == title@,
        r.content == DetailContent::PlainText(lines),
        !r.render_as_header,
        r.section_type == DetailSectionType::Custom,
        r.byte_pattern_rows is None,
{
    DetailSectionData::new(title.to_owned(), DetailContent::PlainText(lines), false)
}


/// Values that can be copied with a copy whose view equals the original's.
pub trait DeepCopy: View + Sized {
    fn duplicate(&self) -> (r: Self)
        ensures
            r@ == self@,
    ;
}

/// Copy every item of a vector.
pub fn duplicate_vec<T: DeepCopy>(v: &Vec<T>) -> (r: Vec<T>)
    ensures
        r@.len() == v@.len(),
        forall|k: int| 0 <= k < v@.len() ==> #[trigger] r@[k]@ == v@[k]@,
{
    let mut r: Vec<T> = Vec::new();
    let mut i: usize = 0;
    while i < v.len()
        invariant
            0 <= i <= v.len(),
            r@.len() == i,
            forall|k: int| 0 <= k < i ==> #[trigger] r@[k]@ == v@[k]@,
        decreases v.len() - i,
    {
        let x = v[i].duplicate();
        r.push(x);
        i = i + 1;
    }
    r
}

impl DeepCopy for String {
    fn duplicate(&self) -> (r: Self) {
        self.clone()
    }
}

impl DeepCopy for CellJumpTargetType {
    fn duplicate(&self) -> (r: Self) {
        match self {
            CellJumpTargetType::Parameter { param_id } => CellJumpTargetType::Parameter {
                param_id: *param_id,
            },
            CellJumpTargetType::Dop { index, name } => CellJumpTargetType::Dop {
                index: *index,
                name: name.clone(),
            },
            CellJumpTargetType::TreeNodeByIndex { index, short_name } =>
                CellJumpTargetType::TreeNodeByIndex { index: *index, short_name: short_name.clone() },
            CellJumpTargetType::Container { index, short_name } => CellJumpTargetType::Container {
                index: *index,
                short_name: short_name.clone(),
            },
        }
    }
}

impl DeepCopy for CellJumpTarget {
    fn duplicate(&self) -> (r: Self) {
        CellJumpTarget { target_type: self.target_type.duplicate() }
    }
}

impl DeepCopy for DetailCell {
    fn duplicate(&self) -> (r: Self) {
        let jump_target = match &self.jump_target {
            Some(j) => Some(j.duplicate()),
            None => None,
        };
        DetailCell { text: self.text.clone(), cell_type: self.cell_type, jump_target }
    }
}

impl DeepCopy for RowMetadata {
    fn duplicate(&self) -> (r: Self) {
        match self {
            RowMetadata::InheritedFrom { layer_name } => RowMetadata::InheritedFrom {
                layer_name: layer_name.clone(),
            },
            RowMetadata::ChildElement { element_type } => RowMetadata::ChildElement {
                element_type: *element_type,
            },
            RowMetadata::ParameterRow { param_id } => RowMetadata::ParameterRow {
                param_id: *param_id,
            },
        }
    }
}

impl DeepCopy for DetailRow {
    fn duplicate(&self) -> (r: Self) {
        let cells = duplicate_vec(&self.cells);
        let metadata = match &self.metadata {
            Some(m) => Some(m.duplicate()),
            None => None,
        };
        let r = DetailRow {
            cells,
            indent: self.indent,
            row_type: self.row_type,
            metadata,
            diff_status: self.diff_status,
        };
        assert(cells_view(r.cells@) =~= cells_view(self.cells@));
        r
    }
}

impl DeepCopy for NodePayload {
    fn duplicate(&self) -> (r: Self) {
        match self {
            NodePayload::Container { short_name, parent_ref_names, parent_ref_indices } => {
                let names = duplicate_vec(parent_ref_names);
                assert(strings_view(names@) =~= strings_view(parent_ref_names@));
                NodePayload::Container {
                    short_name: short_name.clone(),
                    parent_ref_names: names,
                    parent_ref_indices: parent_ref_indices.clone(),
                }
            },
            NodePayload::SectionHeader { section_type } => NodePayload::SectionHeader {
                section_type: *section_type,
            },
            NodePayload::ServiceListHeader { service_list_type } => NodePayload::ServiceListHeader {
                service_list_type: *service_list_type,
            },
            NodePayload::DiagComm { service_short_name } => NodePayload::DiagComm {
                service_short_name: service_short_name.clone(),
            },
            NodePayload::FunctionalClass { short_name } => NodePayload::FunctionalClass {
                short_name: short_name.clone(),
            },
            NodePayload::Parameter { param_id, short_name } => NodePayload::Parameter {
                param_id: *param_id,
                short_name: short_name.clone(),
            },
            NodePayload::Empty => NodePayload::Empty,
        }
    }
}

/// Copy a list of rows.
pub fn duplicate_rows(v: &Vec<DetailRow>) -> (r: Vec<DetailRow>)
    ensures
        rows_view(r@) == rows_view(v@),
{
    let r = duplicate_vec(v);
    assert(rows_view(r@) =~= rows_view(v@));
    r
}

/// Copy a list of strings.
pub fn duplicate_strings(v: &Vec<String>) -> (r: Vec<String>)
    ensures
        strings_view(r@) == strings_view(v@),
{
    let r = duplicate_vec(v);
    assert(strings_view(r@) =~= strings_view(v@));
    r
}

impl DetailContent {
    /// A copy of this content with the same view.
    pub fn duplicate(&self) -> (r: Self)
        ensures
            r@ == self@,
        decreases self,
    {
        match self {
            DetailContent::PlainText(lines) => DetailContent::PlainText(duplicate_strings(lines)),
            DetailContent::Table { header, rows, constraints, use_row_selection } => {
                DetailContent::Table {
                    header: header.duplicate(),
                    rows: duplicate_rows(rows),
                    constraints: constraints.clone(),
                    use_row_selection: *use_row_selection,
                }
            },
            DetailContent::Composite(subs) => {
                proof {
                    lemma_composite_view(*self);
                }
                let mut out: Vec<DetailSectionData> = Vec::new();
                let mut i: usize = 0;
                while i < subs.len()
                    invariant
                        0 <= i <= subs.len(),
                        *self is Composite,
                        subs == self->Composite_0,
                        out@.len() == i,
                        forall|k: int| 0 <= k < i ==> section_view(#[trigger] out@[k]) == section_view(subs@[k]),
                    decreases subs.len() - i,
                {
                    proof {
                        vstd::std_specs::vec::axiom_vec_index_decreases(*subs, i as int);
                        assert(decreases_to!(*self => subs@[i as int]));
                    }
                    let s = subs[i].duplicate();
                    out.push(s);
                    i = i + 1;
                }
                let r = DetailContent::Composite(out);
                proof {
                    lemma_composite_view(r);
                    assert(r@->Composite_0 =~= self@->Composite_0);
                }
                r
            },
        }
    }
}

impl DetailSectionData {
    /// A copy of this section with the same view.
    pub fn duplicate(&self) -> (r: Self)
        ensures
            r@ == self@,
        decreases self,
    {
        let byte_pattern_rows = match &self.byte_pattern_rows {
            Some(rows) => Some(duplicate_rows(rows)),
            None => None,
        };
        DetailSectionData {
            title: self.title.clone(),
            content: self.content.duplicate(),
            render_as_header: self.render_as_header,
            section_type: self.section_type,
            byte_pattern_rows,
        }
    }
}

/// Copy a list of sections.
pub fn duplicate_sections(v: &Vec<DetailSectionData>) -> (r: Vec<DetailSectionData>)
    ensures
        sections_view(r@) == sections_view(v@),
{
    let mut out: Vec<DetailSectionData> = Vec::new();
    let mut i: usize = 0;
    while i < v.len()
        invariant
            0 <= i <= v.len(),
            out@.len() == i,
            forall|k: int| 0 <= k < i ==> section_view(#[trigger] out@[k]) == section_view(v@[k]),
        decreases v.len() - i,
    {
        let s = v[i].duplicate();
        out.push(s);
        i = i + 1;
    }
    assert(sections_view(out@) =~= sections_view(v@));
    out
}

impl TreeNode {
    /// A copy of this node with the same view.
    pub fn duplicate(&self) -> (r: Self)
        ensures
            r@ == self@,
    {
        let old_text = match &self.old_text {
            Some(t) => Some(t.clone()),
            None => None,
        };
        TreeNode {
            depth: self.depth,
            text: self.text.clone(),
            expanded: self.expanded,
            has_children: self.has_children,
            detail_sections: duplicate_sections(&self.detail_sections),
            node_type: self.node_type,
            payload: self.payload.duplicate(),
            parent_idx: self.parent_idx,
            diff_status: self.diff_status,
            old_text,
        }
    }
}

/// The kinds of parameter a diagnostic database knows.
#[derive(Clone, Copy, Debug, PartialEq, Eq, Structural)]
pub enum ParamType {
    CodedConst,
    Dynamic,
    LengthKey,
    MatchingRequestParam,
    NrcConst,
    PhysConst,
    Reserved,
    System,
    TableEntry,
    TableKey,
    TableStruct,
    Value,
}

/// The display label of a parameter kind: its name.
pub open spec fn param_type_text(pt: ParamType) -> Seq<char> {
    match pt {
        ParamType::CodedConst => "CodedConst"@,
        ParamType::Dynamic => "Dynamic"@,
        ParamType::LengthKey => "LengthKey"@,
        ParamType::MatchingRequestParam => "MatchingRequestParam"@,
        ParamType::NrcConst => "NrcConst"@,
        ParamType::PhysConst => "PhysConst"@,
        ParamType::Reserved => "Reserved"@,
        ParamType::System => "System"@,
        ParamType::TableEntry => "TableEntry"@,
        ParamType::TableKey => "TableKey"@,
        ParamType::TableStruct => "TableStruct"@,
        ParamType::Value => "Value"@,
    }
}

/// The display label of a parameter kind, the same at every place that
/// shows one.
pub fn param_type_label(pt: &ParamType) -> (r: &'static str)
    ensures
        r@ == param_type_text(*pt),
{
    match pt {
        ParamType::CodedConst => "CodedConst",
        ParamType::Dynamic => "Dynamic",
        ParamType::LengthKey => "LengthKey",
        ParamType::MatchingRequestParam => "MatchingRequestParam",
        ParamType::NrcConst => "NrcConst",
        ParamType::PhysConst => "PhysConst",
        ParamType::Reserved => "Reserved",
        ParamType::System => "System",
        ParamType::TableEntry => "TableEntry",
        ParamType::TableKey => "TableKey",
        ParamType::TableStruct => "TableStruct",
        ParamType::Value => "Value",
    }
}

/// The content holds a table at some depth.
pub open spec fn has_table(c: ContentV) -> bool
    decreases c, 0nat,
{
    match c {
        ContentV::Table { .. } => true,
        ContentV::Composite(subs) => has_table_in(subs, 0),
        ContentV::PlainText(_) => false,
    }
}

/// One of the sections `subs[from..]` holds a table at some depth.
pub open spec fn has_table_in(subs: Seq<SectionV>, from: int) -> bool
    decreases subs, subs.len() - from,
{
    if from < 0 || from >= subs.len() {
        false
    } else {
        has_table(subs[from].content) || has_table_in(subs, from + 1)
    }
}

proof fn lemma_first_table_some(c: ContentV)
    ensures
        first_table_v(c) is Some <==> has_table(c),
    decreases c, 0nat,
{
    match c {
        ContentV::Composite(subs) => lemma_first_table_in_some(subs, 0),
        _ => {},
    }
}

proof fn lemma_first_table_in_some(subs: Seq<SectionV>, from: int)
    ensures
        first_table_in(subs, from) is Some <==> has_table_in(subs, from),
        has_table_in(subs, from) ==> exists|k: int|
            from <= k < subs.len() && #[trigger] has_table(subs[k].content) && (forall|j: int|
                from <= j < k ==> !has_table(#[trigger] subs[j].content)) && first_table_in(subs, from)
                == first_table_v(subs[k].content),
    decreases subs, subs.len() - from,
{
    if 0 <= from < subs.len() {
        lemma_first_table_some(subs[from].content);
        lemma_first_table_in_some(subs, from + 1);
        if has_table_in(subs, from) && !has_table(subs[from].content) {
            let k = choose|k: int|
                from + 1 <= k < subs.len() && #[trigger] has_table(subs[k].content) && (forall|j: int|
                    from + 1 <= j < k ==> !has_table(#[trigger] subs[j].content)) && first_table_in(subs, from + 1)
                    == first_table_v(subs[k].content);
            assert forall|j: int| from <= j < k implies !has_table(#[trigger] subs[j].content) by {}
        }
        if has_table(subs[from].content) {
            assert(forall|j: int| from <= j < from ==> !has_table(#[trigger] subs[j].content));
        }
    }
}

/// The table accessors read the content's first table: a table itself; in
/// a composite, the first table of the first section that holds one at any
/// depth; none in plain text or when no section holds a table. So the rows,
/// header, widths and selection flag are all there or all missing.
pub proof fn law_first_table(c: ContentV)
    ensures
        first_table_v(c) is Some <==> has_table(c),
        c is PlainText ==> first_table_v(c) is None,
        c matches ContentV::Table { header, rows, constraints, use_row_selection } ==> first_table_v(c) == Some(
            (header, rows, constraints, use_row_selection),
        ),
        c matches ContentV::Composite(subs) ==> (has_table(c) ==> exists|k: int|
            0 <= k < subs.len() && #[trigger] has_table(subs[k].content) && (forall|j: int|
                0 <= j < k ==> !has_table(#[trigger] subs[j].content)) && first_table_v(c) == first_table_v(
                subs[k].content,
            )),
{
    lemma_first_table_some(c);
    match c {
        ContentV::Composite(subs) => lemma_first_table_in_some(subs, 0),
        _ => {},
    }
}

} // verus!
