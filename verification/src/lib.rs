//! Generation of the LaTeX source of a course-work report from its
//! description: the document model, the checks made when it is loaded, the
//! splicing of `!import` tags, and the rendering of every part of the
//! document.
pub mod codegen;
pub mod ir;
pub mod text;
