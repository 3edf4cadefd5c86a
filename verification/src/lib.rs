//! Paragraph layout decisions for HWP documents.
//!
//! The library holds the part of paragraph layout that is decided on plain
//! values: character positions, line ownership of inline objects, stored line
//! geometry in HWPUNIT, branch selection for spacing and tabs. Distances in
//! pixels are carried through as an opaque width type or stay with the caller.

pub mod model;
pub mod seqs;
pub mod text;
pub mod text_laws;
pub mod pua;
pub mod controls;
pub mod composed;
pub mod composed_laws;
pub mod tac;
pub mod tac_laws;
pub mod line_kinds;
pub mod frame;
pub mod line_geometry;
pub mod geometry_laws;
pub mod spacing;
pub mod spacing_laws;
pub mod line_align;
pub mod line_box;
pub mod line_advance;
pub mod line_laws;
pub mod runs;
pub mod run_laws;
pub mod line_plan;
pub mod draw_laws;
pub mod width_plan;
pub mod frame_plan;
pub mod frame_laws;
pub mod tab_flow;
pub mod tabs;
pub mod tab_laws;
pub mod notes;
pub mod labels;
pub mod control_laws;
pub mod numbering;
pub mod mark_laws;
pub mod inline_table;
pub mod inline_table_laws;
pub mod cluster;
pub mod shaping;
pub mod shaping_laws;
pub mod cells;
pub mod cell_laws;
pub mod vertical;
pub mod vertical_laws;
pub mod result_laws;
pub mod query_laws;
pub mod fields;
pub mod field_laws;
pub mod objects;
pub mod object_laws;
