//! The document model: what a report consists of, as plain values.
//!
//! File paths are held as the text that is printed into the LaTeX source,
//! and lengths given as fractions of the line width are held as the decimal
//! text that is printed.
use vstd::prelude::*;

verus! {

// ── Top-level ────────────────────────────────────────────────────────────────

/// A whole report: title-page data, style, and the sections in order.
#[derive(Debug)]
pub struct Document {
    pub meta: Meta,
    pub style: Style,
    pub document: Vec<Section>,
}

// ── Meta ─────────────────────────────────────────────────────────────────────

/// The data shown on the title page.
#[derive(Debug)]
pub struct Meta {
    pub university: String,
    pub department: String,
    pub subject: String,
    pub title: String,
    pub author: Person,
    pub supervisor: Supervisor,
    pub year: u32,
    pub city: String,
    pub logo: Option<String>,
    pub abstract_: Option<String>,
    /// A faculty line printed under the university, if given.
    pub faculty: Option<String>,
    /// A chair line printed under the department, if given.
    pub chair: Option<String>,
    /// The kind of work ("курсовая работа" when absent).
    pub doc_type: Option<String>,
    /// Whether the title page carries the grade/date line.
    pub grade_line: bool,
}

#[derive(Debug)]
pub struct Person {
    pub name: String,
    pub group: String,
}

#[derive(Debug)]
pub struct Supervisor {
    pub name: String,
    pub title: String,
}

// ── Style ─────────────────────────────────────────────────────────────────────

#[derive(Debug)]
pub struct Style {
    pub page: PageStyle,
    pub fonts: FontSet,
    pub figures: CaptionStyle,
    pub tables: CaptionStyle,
    pub listings: CaptionStyle,
    pub bibliography: BibStyle,
}

#[derive(Debug)]
pub struct PageStyle {
    pub margins: Margins,
    pub numbering: PageNumbering,
}

#[derive(Debug)]
pub struct Margins {
    pub left: String,
    pub right: String,
    pub top: String,
    pub bottom: String,
}

#[derive(Debug)]
pub struct PageNumbering {
    pub start_from: u32,
    pub show_on_title: bool,
}

#[derive(Debug)]
pub struct FontSet {
    pub main: FontSpec,
    pub heading: FontSpec,
    pub caption: FontSpec,
    pub listing_body: FontSpec,
}

/// A font setting. The line spacing is held as the decimal text printed for
/// it, and `line_height` is the size in points times the line spacing,
/// truncated to a whole number of points (16 points assumed when the size
/// does not read as a number).
#[derive(Debug)]
pub struct FontSpec {
    pub family: String,
    pub size: String,
    pub line_spacing: String,
    pub line_height: u32,
    pub align: Option<String>,
    pub bold: Option<bool>,
    pub italic: Option<bool>,
    pub indent: Option<bool>,
}

#[derive(Debug)]
pub struct CaptionStyle {
    pub align: Option<String>,
    pub caption_position: String,
    pub caption_format: String,
}

#[derive(Debug)]
pub struct BibStyle {
    pub standard: String,
    pub label_format: String,
}

// ── Sections ──────────────────────────────────────────────────────────────────

#[derive(Debug)]
pub struct Section {
    pub id: String,
    pub title: String,
    pub numbered: bool,
    pub kind: SectionKind,
}

#[derive(Debug)]
pub enum SectionKind {
    Bibliography { entries: Vec<BibEntry> },
    Regular { body: Vec<Block>, subsections: Vec<Section> },
}

// ── Blocks ────────────────────────────────────────────────────────────────────

/// One block of a section's body. `width` is a fraction of the line width,
/// as decimal text.
#[derive(Debug)]
pub enum Block {
    Paragraph { text: String },
    Formula { id: Option<String>, content: String },
    Figure { id: String, path: String, caption: String, width: String },
    FigureGroup { id: String, caption: String, layout: FigureGroupLayout, figures: Vec<SubFigure> },
    Listing {
        id: String,
        source: ListingSource,
        language: String,
        caption: String,
        range: Option<(usize, usize)>,
    },
    Table { id: String, caption: String, columns: Vec<String>, rows: Vec<Vec<String>> },
    List { ordered: bool, items: Vec<ListItem> },
    Algorithm { id: String, caption: String, numbered: bool, steps: Vec<AlgoStep> },
    Note { text: String, title: Option<String> },
    Warning { text: String, title: Option<String> },
    PageBreak,
    RawLatex { content: String },
}

/// One step of an algorithm; `body` holds the steps of the branch or loop.
#[derive(Debug)]
pub enum AlgoStep {
    Statement { text: String },
    Require { text: String },
    Ensure { text: String },
    Return { text: String },
    If { cond: String, body: Vec<AlgoStep>, else_: Vec<AlgoStep> },
    For { var: String, body: Vec<AlgoStep> },
    While { cond: String, body: Vec<AlgoStep> },
    Comment { text: String },
}

#[derive(Debug, Clone, Copy, PartialEq, Eq)]
pub enum FigureGroupLayout {
    Horizontal,
    Vertical,
}

impl Default for FigureGroupLayout {
    fn default() -> (r: Self)
        ensures
            r == FigureGroupLayout::Horizontal,
    {
        FigureGroupLayout::Horizontal
    }
}

#[derive(Debug)]
pub struct SubFigure {
    pub path: String,
    pub subcaption: String,
    pub width: String,
}

#[derive(Debug)]
pub enum ListItem {
    Text(String),
    Nested(Box<Block>),
}

#[derive(Debug)]
pub enum ListingSource {
    File { path: String },
    Inline { content: String },
}

// ── Bibliography ──────────────────────────────────────────────────────────────

#[derive(Debug)]
pub struct BibEntry {
    pub id: String,
    pub kind: BibKind,
}

#[derive(Debug)]
pub enum BibKind {
    Book {
        authors: Vec<String>,
        title: String,
        publisher: String,
        year: u32,
        city: String,
        pages: Option<u32>,
    },
    Article {
        authors: Vec<String>,
        title: String,
        journal: String,
        year: u32,
        volume: Option<String>,
        pages: Option<String>,
    },
    Online { authors: Vec<String>, title: String, url: String, accessed: String },
    Thesis {
        authors: Vec<String>,
        title: String,
        degree: Option<String>,
        city: String,
        year: u32,
        pages: Option<u32>,
    },
}

} // verus!
