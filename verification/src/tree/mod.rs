//! The flat tree model shown by the browser and its detail sections.
pub mod builder;
pub mod elements;
pub mod resolve;
pub mod rows;
pub mod types;

pub use types::{
    CellJumpTarget, CellJumpTargetType, CellType, ChildElementType, ColumnConstraint, DetailCell,
    DetailContent, DetailRow, DetailRowType, DetailSectionData, DetailSectionType, DiffStatus,
    NodePayload, NodeTextPrefix, NodeType, RowMetadata, SectionType, ServiceListType, TreeNode,
    lines_to_single_section, BIT_POSITION_UNSET,
};
