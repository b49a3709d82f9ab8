//! The LaTeX preamble: document class, page geometry, packages, fonts,
//! listing style and page style.
use vstd::prelude::*;

use crate::ir::types::{Document, Style};
use crate::text::{dec, ends_with, push_dec, trim_end_matches, trim_end_pat};

verus! {

// ───────────────────────────── specifications ─────────────────────────────

/// The packages loaded by every document, one `\usepackage` (or language
/// setting) per line.
pub open spec fn base_packages() -> Seq<char> {
    "\\usepackage{polyglossia}\n\\setdefaultlanguage{russian}\n\\setotherlanguage{english}\n\\defaultfontfeatures{Mapping=tex-text}\n\\usepackage{graphicx}\n\\usepackage{subcaption}\n\\usepackage{amsmath}\n\\usepackage{amssymb}\n\\usepackage{hyperref}\n\\usepackage{listings}\n\\usepackage{xcolor}\n\\usepackage{caption}\n\\usepackage{setspace}\n\\usepackage{indentfirst}\n\\usepackage{titlesec}\n\\usepackage{tocloft}\n\\usepackage{longtable}\n\\usepackage{booktabs}\n\\usepackage{fancyhdr}\n\\usepackage{tcolorbox}\n"@
}

/// The packages loaded only by documents with algorithms.
pub open spec fn algorithm_packages() -> Seq<char> {
    "\\usepackage{algorithm}\n\\usepackage{algpseudocode}\n"@
}

/// The `\documentclass` line, with the main font size.
pub open spec fn documentclass_text(s: Style) -> Seq<char> {
    "\\documentclass["@ + s.fonts.main.size@ + ",a4paper]{extarticle}\n\n"@
}

/// The page margins.
pub open spec fn geometry_text(s: Style) -> Seq<char> {
    let m = s.page.margins;
    "\\usepackage[left="@ + m.left@ + ", right="@ + m.right@ + ", top="@ + m.top@ + ", bottom="@
        + m.bottom@ + "]{geometry}\n"@
}

/// The packages and the caption placement.
pub open spec fn packages_text(s: Style, use_algorithm: bool) -> Seq<char> {
    base_packages() + (if use_algorithm {
        algorithm_packages()
    } else {
        Seq::empty()
    }) + "\\captionsetup[figure]{position="@ + s.figures.caption_position@
        + ", labelsep=period, font={small,it}}\n"@ + "\\captionsetup[table]{position="@
        + s.tables.caption_position@ + ", labelsep=period, font={small,it}}\n"@ + "\n"@
}

/// The heading format for one sectioning command.
pub open spec fn titleformat_text(
    cmd: Seq<char>,
    counter: Seq<char>,
    bold: Seq<char>,
    size: Seq<char>,
    baseline: nat,
) -> Seq<char> {
    "\\titleformat{"@ + cmd + "}{\\normalfont"@ + bold + "\\fontsize{"@ + size + "}{"@ + dec(
        baseline,
    ) + "}\\selectfont}{"@ + counter + "}{1em}{}\n"@
}

/// `\bfseries` when the heading font is bold.
pub open spec fn bold_cmd(bold: Option<bool>) -> Seq<char> {
    if bold == Some(true) {
        "\\bfseries"@
    } else {
        Seq::empty()
    }
}

/// The font settings, the line spacing and the heading formats.
pub open spec fn fonts_text(s: Style) -> Seq<char> {
    let main = s.fonts.main;
    let heading = s.fonts.heading;
    let mono = s.fonts.listing_body.family@;
    let pt = trim_end_pat(heading.size@, "pt"@);
    let bold = bold_cmd(heading.bold);
    "\\usepackage{fontspec}\n"@ + "\\setmainfont{"@ + main.family@ + "}\n"@
        + "\\newfontfamily\\cyrillicfont{"@ + main.family@ + "}[Script=Cyrillic]\n"@
        + "\\newfontfamily\\cyrillicfontsf{"@ + main.family@ + "}[Script=Cyrillic]\n"@
        + "\\newfontfamily\\cyrillicfonttt{"@ + mono + "}[Script=Cyrillic]\n"@ + "\\setmonofont{"@
        + mono + "}\n"@ + "\\setstretch{"@ + main.line_spacing@ + "}\n"@ + titleformat_text(
        "\\section"@,
        "\\thesection"@,
        bold,
        pt,
        heading.line_height as nat,
    ) + titleformat_text("\\subsection"@, "\\thesubsection"@, bold, pt, heading.line_height as nat)
        + "\n"@
}

/// The LaTeX size command for a font size in points (`normalsize` for
/// sizes without one).
pub open spec fn latex_size(size: Seq<char>) -> Seq<char> {
    let t = trim_end_pat(size, "pt"@);
    if t == "8"@ {
        "tiny"@
    } else if t == "9"@ {
        "footnotesize"@
    } else if t == "10"@ {
        "small"@
    } else if t == "11"@ {
        "normalsize"@
    } else if t == "12"@ {
        "small"@
    } else if t == "14"@ {
        "large"@
    } else if t == "16"@ {
        "Large"@
    } else if t == "18"@ {
        "LARGE"@
    } else if t == "20"@ {
        "huge"@
    } else if t == "24"@ {
        "Huge"@
    } else {
        "normalsize"@
    }
}

/// The listing style.
pub open spec fn listings_text(s: Style) -> Seq<char> {
    "\\lstset{\n  basicstyle=\\"@ + latex_size(s.fonts.listing_body.size@)
        + "\\ttfamily,\n  breaklines=true,\n  frame=single,\n  captionpos=t,\n  numbers=left,\n  numberstyle=\\tiny,\n  tabsize=4,\n  showstringspaces=false,\n  keywordstyle=\\color{blue},\n  commentstyle=\\color{gray},\n  stringstyle=\\color{orange},\n}\n\n"@
}

/// Link colours, page style and paragraph indent.
pub open spec fn misc_text(s: Style) -> Seq<char> {
    "\\hypersetup{colorlinks=true, linkcolor=black, urlcolor=blue, citecolor=black}\n"@ + (
    if s.page.numbering.show_on_title {
        "\\pagestyle{plain}\n"@
    } else {
        "\\pagestyle{fancy}\n\\fancyhf{}\n\\fancyfoot[C]{\\thepage}\n\\renewcommand{\\headrulewidth}{0pt}\n"@
    }) + "\\setlength{\\parindent}{1.25cm}\n"@ + "\n"@
}

/// The whole preamble.
pub open spec fn preamble_text(s: Style, use_algorithm: bool) -> Seq<char> {
    documentclass_text(s) + geometry_text(s) + packages_text(s, use_algorithm) + fonts_text(s)
        + listings_text(s) + misc_text(s)
}

// ───────────────────────────── executable ─────────────────────────────

pub fn render_documentclass(s: &Style) -> (r: String)
    ensures
        r@ == documentclass_text(*s),
{
    let mut out = String::new();
    out.append("\\documentclass[");
    out.append(s.fonts.main.size.as_str());
    out.append(",a4paper]{extarticle}\n\n");
    out
}

pub fn render_geometry(s: &Style) -> (r: String)
    ensures
        r@ == geometry_text(*s),
{
    let m = &s.page.margins;
    let mut out = String::new();
    out.append("\\usepackage[left=");
    out.append(m.left.as_str());
    out.append(", right=");
    out.append(m.right.as_str());
    out.append(", top=");
    out.append(m.top.as_str());
    out.append(", bottom=");
    out.append(m.bottom.as_str());
    out.append("]{geometry}\n");
    out
}

pub fn render_packages(s: &Style, use_algorithm: bool) -> (r: String)
    ensures
        r@ == packages_text(*s, use_algorithm),
{
    let mut out = String::new();
    out.append(
        "\\usepackage{polyglossia}\n\\setdefaultlanguage{russian}\n\\setotherlanguage{english}\n\\defaultfontfeatures{Mapping=tex-text}\n\\usepackage{graphicx}\n\\usepackage{subcaption}\n\\usepackage{amsmath}\n\\usepackage{amssymb}\n\\usepackage{hyperref}\n\\usepackage{listings}\n\\usepackage{xcolor}\n\\usepackage{caption}\n\\usepackage{setspace}\n\\usepackage{indentfirst}\n\\usepackage{titlesec}\n\\usepackage{tocloft}\n\\usepackage{longtable}\n\\usepackage{booktabs}\n\\usepackage{fancyhdr}\n\\usepackage{tcolorbox}\n",
    );
    if use_algorithm {
        out.append("\\usepackage{algorithm}\n\\usepackage{algpseudocode}\n");
    }
    out.append("\\captionsetup[figure]{position=");
    out.append(s.figures.caption_position.as_str());
    out.append(", labelsep=period, font={small,it}}\n");
    out.append("\\captionsetup[table]{position=");
    out.append(s.tables.caption_position.as_str());
    out.append(", labelsep=period, font={small,it}}\n");
    out.append("\n");
    out
}

/// Appends the heading format for one sectioning command.
fn push_titleformat(
    out: &mut String,
    cmd: &str,
    counter: &str,
    bold: &str,
    size: &str,
    baseline: u32,
)
    ensures
        final(out)@ == old(out)@ + titleformat_text(cmd@, counter@, bold@, size@, baseline as nat),
{
    out.append("\\titleformat{");
    out.append(cmd);
    out.append("}{\\normalfont");
    out.append(bold);
    out.append("\\fontsize{");
    out.append(size);
    out.append("}{");
    push_dec(out, baseline as u64);
    out.append("}\\selectfont}{");
    out.append(counter);
    out.append("}{1em}{}\n");
}

pub fn render_fonts(s: &Style) -> (r: String)
    ensures
        r@ == fonts_text(*s),
{
    let main = &s.fonts.main;
    let heading = &s.fonts.heading;
    let mut out = String::new();
    out.append("\\usepackage{fontspec}\n");
    out.append("\\setmainfont{");
    out.append(main.family.as_str());
    out.append("}\n");
    out.append("\\newfontfamily\\cyrillicfont{");
    out.append(main.family.as_str());
    out.append("}[Script=Cyrillic]\n");
    out.append("\\newfontfamily\\cyrillicfontsf{");
    out.append(main.family.as_str());
    out.append("}[Script=Cyrillic]\n");
    out.append("\\newfontfamily\\cyrillicfonttt{");
    out.append(s.fonts.listing_body.family.as_str());
    out.append("}[Script=Cyrillic]\n");
    out.append("\\setmonofont{");
    out.append(s.fonts.listing_body.family.as_str());
    out.append("}\n");
    out.append("\\setstretch{");
    out.append(main.line_spacing.as_str());
    out.append("}\n");
    proof {
        reveal_strlit("pt");
        reveal_strlit("");
    }
    let heading_pt = trim_end_matches(heading.size.as_str(), "pt");
    let bold = match heading.bold {
        Some(true) => "\\bfseries",
        _ => "",
    };
    assert(bold@ == bold_cmd(heading.bold));
    push_titleformat(
        &mut out,
        "\\section",
        "\\thesection",
        bold,
        heading_pt.as_str(),
        heading.line_height,
    );
    push_titleformat(
        &mut out,
        "\\subsection",
        "\\thesubsection",
        bold,
        heading_pt.as_str(),
        heading.line_height,
    );
    out.append("\n");
    out
}

/// The LaTeX size command for a font size in points.
pub fn pt_to_latex_size(size: &str) -> (r: &'static str)
    ensures
        r@ == latex_size(size@),
{
    proof {
        reveal_strlit("pt");
    }
    let t = crate::text::to_chars(trim_end_matches(size, "pt").as_str());
    let n = t.len();
    assert(t@.subrange(0, n as int) =~= t@);
    if crate::text::range_eq(&t, 0, n, "8") {
        "tiny"
    } else if crate::text::range_eq(&t, 0, n, "9") {
        "footnotesize"
    } else if crate::text::range_eq(&t, 0, n, "10") {
        "small"
    } else if crate::text::range_eq(&t, 0, n, "11") {
        "normalsize"
    } else if crate::text::range_eq(&t, 0, n, "12") {
        "small"
    } else if crate::text::range_eq(&t, 0, n, "14") {
        "large"
    } else if crate::text::range_eq(&t, 0, n, "16") {
        "Large"
    } else if crate::text::range_eq(&t, 0, n, "18") {
        "LARGE"
    } else if crate::text::range_eq(&t, 0, n, "20") {
        "huge"
    } else if crate::text::range_eq(&t, 0, n, "24") {
        "Huge"
    } else {
        "normalsize"
    }
}

pub fn render_listings(s: &Style) -> (r: String)
    ensures
        r@ == listings_text(*s),
{
    let size_cmd = pt_to_latex_size(s.fonts.listing_body.size.as_str());
    let mut out = String::new();
    out.append("\\lstset{\n  basicstyle=\\");
    out.append(size_cmd);
    out.append(
        "\\ttfamily,\n  breaklines=true,\n  frame=single,\n  captionpos=t,\n  numbers=left,\n  numberstyle=\\tiny,\n  tabsize=4,\n  showstringspaces=false,\n  keywordstyle=\\color{blue},\n  commentstyle=\\color{gray},\n  stringstyle=\\color{orange},\n}\n\n",
    );
    out
}

pub fn render_misc(s: &Style) -> (r: String)
    ensures
        r@ == misc_text(*s),
{
    let mut out = String::new();
    out.append(
        "\\hypersetup{colorlinks=true, linkcolor=black, urlcolor=blue, citecolor=black}\n",
    );
    if s.page.numbering.show_on_title {
        out.append("\\pagestyle{plain}\n");
    } else {
        out.append(
            "\\pagestyle{fancy}\n\\fancyhf{}\n\\fancyfoot[C]{\\thepage}\n\\renewcommand{\\headrulewidth}{0pt}\n",
        );
    }
    out.append("\\setlength{\\parindent}{1.25cm}\n");
    out.append("\n");
    out
}

/// Renders the preamble; `use_algorithm` adds the algorithm packages.
pub fn render(doc: &Document, use_algorithm: bool) -> (r: String)
    ensures
        r@ == preamble_text(doc.style, use_algorithm),
{
    let s = &doc.style;
    let mut out = String::new();
    out.append(render_documentclass(s).as_str());
    out.append(render_geometry(s).as_str());
    out.append(render_packages(s, use_algorithm).as_str());
    out.append(render_fonts(s).as_str());
    out.append(render_listings(s).as_str());
    out.append(render_misc(s).as_str());
    assert(out@ =~= preamble_text(doc.style, use_algorithm));
    out
}


/// The body text's line spacing is the main font's: the font settings of two
/// styles with the same main font and the same listing font family agree up
/// to and including the `\setstretch` line, and that line carries the main
/// font's line spacing, whatever the heading and caption fonts are.
pub proof fn lemma_setstretch_from_main(s1: Style, s2: Style)
    requires
        s1.fonts.main == s2.fonts.main,
        s1.fonts.listing_body.family == s2.fonts.listing_body.family,
    ensures
        exists|l: int|
            0 <= l <= fonts_text(s1).len() && l <= fonts_text(s2).len() && #[trigger] fonts_text(
                s1,
            ).take(l) == fonts_text(s2).take(l) && ends_with(
                fonts_text(s1).take(l),
                "\\setstretch{"@ + s1.fonts.main.line_spacing@ + "}\n"@,
            ),
{
    let main = s1.fonts.main;
    let mono = s1.fonts.listing_body.family@;
    let stretch = "\\setstretch{"@ + main.line_spacing@ + "}\n"@;
    let head = "\\usepackage{fontspec}\n"@ + "\\setmainfont{"@ + main.family@ + "}\n"@
        + "\\newfontfamily\\cyrillicfont{"@ + main.family@ + "}[Script=Cyrillic]\n"@
        + "\\newfontfamily\\cyrillicfontsf{"@ + main.family@ + "}[Script=Cyrillic]\n"@
        + "\\newfontfamily\\cyrillicfonttt{"@ + mono + "}[Script=Cyrillic]\n"@ + "\\setmonofont{"@
        + mono + "}\n"@ + stretch;
    let l = head.len() as int;
    assert(fonts_text(s1) =~= head + fonts_text(s1).skip(l));
    assert(fonts_text(s2) =~= head + fonts_text(s2).skip(l));
    assert(fonts_text(s1).take(l) =~= head);
    assert(fonts_text(s2).take(l) =~= head);
    assert(head.skip(head.len() - stretch.len()) =~= stretch);
    assert(ends_with(fonts_text(s1).take(l), stretch));
}

} // verus!
