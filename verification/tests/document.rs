use kursach::codegen::blocks::BibFormat;
use kursach::codegen::preamble::{
    pt_to_latex_size, render as render_preamble, render_documentclass, render_fonts,
    render_geometry, render_listings, render_misc, render_packages,
};
use kursach::codegen::sections::{format_bib_entry, render_all, render_bibliography, render_section};
use kursach::codegen::titlepage::render as render_titlepage;
use kursach::codegen::{block_has_algorithm, generate, has_algorithm, render_abstract, section_has_algorithm};
use kursach::ir::types::{
    AlgoStep, BibEntry, BibKind, BibStyle, Block, CaptionStyle, Document, FontSet, FontSpec,
    Margins, Meta, PageNumbering, PageStyle, Person, Section, SectionKind, Style, Supervisor,
};

fn s(x: &str) -> String {
    x.to_string()
}

fn font(family: &str, size: &str, spacing: &str, height: u32, bold: Option<bool>) -> FontSpec {
    FontSpec {
        family: s(family),
        size: s(size),
        line_spacing: s(spacing),
        line_height: height,
        align: None,
        bold,
        italic: None,
        indent: None,
    }
}

fn caption(pos: &str) -> CaptionStyle {
    CaptionStyle { align: None, caption_position: s(pos), caption_format: s("f") }
}

fn style(show_on_title: bool) -> Style {
    Style {
        page: PageStyle {
            margins: Margins { left: s("3cm"), right: s("1cm"), top: s("2cm"), bottom: s("2cm") },
            numbering: PageNumbering { start_from: 1, show_on_title },
        },
        fonts: FontSet {
            main: font("Times New Roman", "14pt", "1.5", 21, None),
            heading: font("Times New Roman", "16pt", "1.5", 24, Some(true)),
            caption: font("Times New Roman", "12pt", "1", 12, None),
            listing_body: font("Courier New", "12pt", "1", 12, None),
        },
        figures: caption("bottom"),
        tables: caption("top"),
        listings: caption("top"),
        bibliography: BibStyle { standard: s("gost"), label_format: s("num") },
    }
}

fn meta() -> Meta {
    Meta {
        university: s("U"),
        department: s("D"),
        subject: s("S"),
        title: s("T"),
        author: Person { name: s("Ivanov I.I."), group: s("G-1") },
        supervisor: Supervisor { name: s("Petrov P.P."), title: s("prof.") },
        year: 2024,
        city: s("Moscow"),
        logo: None,
        abstract_: None,
        faculty: None,
        chair: None,
        doc_type: None,
        grade_line: false,
    }
}

fn section(id: &str, title: &str, numbered: bool, body: Vec<Block>, subs: Vec<Section>) -> Section {
    Section {
        id: s(id),
        title: s(title),
        numbered,
        kind: SectionKind::Regular { body, subsections: subs },
    }
}

fn book() -> BibEntry {
    BibEntry {
        id: s("knuth"),
        kind: BibKind::Book {
            authors: vec![s("Knuth D."), s("Other A.")],
            title: s("TAOCP"),
            publisher: s("AW"),
            year: 1968,
            city: s("Reading"),
            pages: Some(672),
        },
    }
}

#[test]
fn bib_entries() {
    assert_eq!(format_bib_entry(&book()), "Knuth D., Other A. TAOCP. --- Reading: AW, 1968. 672 с.");
    let article = BibEntry {
        id: s("a"),
        kind: BibKind::Article {
            authors: vec![s("A.")],
            title: s("On X"),
            journal: s("J"),
            year: 2001,
            volume: Some(s("3")),
            pages: Some(s("1-10")),
        },
    };
    assert_eq!(format_bib_entry(&article), "A. On X // J. Т. 3. 2001. С. 1-10.");
    let article2 = BibEntry {
        id: s("a2"),
        kind: BibKind::Article {
            authors: vec![],
            title: s("Y"),
            journal: s("K"),
            year: 5,
            volume: None,
            pages: None,
        },
    };
    assert_eq!(format_bib_entry(&article2), " Y // K. 5.");
    let online = BibEntry {
        id: s("o"),
        kind: BibKind::Online { authors: vec![], title: s("Site"), url: s("http://a.b"), accessed: s("01.01.2024") },
    };
    assert_eq!(
        format_bib_entry(&online),
        "Site. --- URL: \\url{http://a.b} (дата обращения: 01.01.2024)."
    );
    let online2 = BibEntry {
        id: s("o2"),
        kind: BibKind::Online { authors: vec![s("X"), s("Y")], title: s("P"), url: s("u"), accessed: s("d") },
    };
    assert_eq!(format_bib_entry(&online2), "X, Y P. --- URL: \\url{u} (дата обращения: d).");
    let thesis = BibEntry {
        id: s("t"),
        kind: BibKind::Thesis {
            authors: vec![s("Z.")],
            title: s("Th"),
            degree: None,
            city: s("C"),
            year: 2010,
            pages: None,
        },
    };
    assert_eq!(format_bib_entry(&thesis), "Z. Th: дис. ... канд. техн. наук. --- C, 2010.");
    let thesis2 = BibEntry {
        id: s("t2"),
        kind: BibKind::Thesis {
            authors: vec![s("Z.")],
            title: s("Th"),
            degree: Some(s("дис. д-ра наук")),
            city: s("C"),
            year: 0,
            pages: Some(10),
        },
    };
    assert_eq!(format_bib_entry(&thesis2), "Z. Th: дис. д-ра наук. --- C, 0. 10 с.");
}

#[test]
fn bibliography() {
    let entries = vec![book()];
    assert_eq!(
        render_bibliography(&entries, &BibFormat::default()),
        "\\begin{thebibliography}{1}\n  \\bibitem{knuth}\n  Knuth D., Other A. TAOCP. --- Reading: AW, 1968. 672 с.\n\\end{thebibliography}\n\n"
    );
    assert_eq!(
        render_bibliography(&vec![], &BibFormat),
        "\\begin{thebibliography}{0}\n\\end{thebibliography}\n\n"
    );
}

#[test]
fn sections_by_depth() {
    let deep = section("d", "Deep", true, vec![], vec![section("e", "Deeper", false, vec![], vec![])]);
    let sub = section("s", "Sub", false, vec![Block::PageBreak], vec![deep]);
    let top = section("t", "Top", true, vec![Block::Paragraph { text: s("p") }], vec![sub]);
    assert_eq!(
        render_section(&top, 0),
        "\\section{Top}\n\np\n\n\\subsection*{Sub}\n\\addcontentsline{toc}{subsection}{Sub}\n\n\\clearpage\n\n\\subsubsection{Deep}\n\n\\subsubsection*{Deeper}\n\\addcontentsline{toc}{subsubsection}{Deeper}\n\n"
    );
    let plain = section("x", "X", true, vec![], vec![]);
    assert_eq!(render_section(&plain, 7), "\\subsubsection{X}\n\n");
    assert_eq!(render_section(&plain, 2), render_section(&plain, 40));
}

#[test]
fn bibliography_section() {
    let bib = Section {
        id: s("bib"),
        title: s("Список литературы"),
        numbered: false,
        kind: SectionKind::Bibliography { entries: vec![book()] },
    };
    assert_eq!(
        render_section(&bib, 0),
        "\\addcontentsline{toc}{section}{Список литературы}\n\n\\begin{thebibliography}{1}\n  \\bibitem{knuth}\n  Knuth D., Other A. TAOCP. --- Reading: AW, 1968. 672 с.\n\\end{thebibliography}\n\n"
    );
}

#[test]
fn preamble_parts() {
    let st = style(false);
    assert_eq!(render_documentclass(&st), "\\documentclass[14pt,a4paper]{extarticle}\n\n");
    assert_eq!(
        render_geometry(&st),
        "\\usepackage[left=3cm, right=1cm, top=2cm, bottom=2cm]{geometry}\n"
    );
    let pk = render_packages(&st, false);
    assert!(pk.starts_with("\\usepackage{polyglossia}\n\\setdefaultlanguage{russian}\n"));
    assert!(!pk.contains("algorithm"));
    assert!(pk.ends_with("\\captionsetup[figure]{position=bottom, labelsep=period, font={small,it}}\n\\captionsetup[table]{position=top, labelsep=period, font={small,it}}\n\n"));
    let pk2 = render_packages(&st, true);
    assert!(pk2.contains("\\usepackage{tcolorbox}\n\\usepackage{algorithm}\n\\usepackage{algpseudocode}\n\\captionsetup"));
    assert_eq!(
        render_fonts(&st),
        "\\usepackage{fontspec}\n\\setmainfont{Times New Roman}\n\\newfontfamily\\cyrillicfont{Times New Roman}[Script=Cyrillic]\n\\newfontfamily\\cyrillicfontsf{Times New Roman}[Script=Cyrillic]\n\\newfontfamily\\cyrillicfonttt{Courier New}[Script=Cyrillic]\n\\setmonofont{Courier New}\n\\setstretch{1.5}\n\\titleformat{\\section}{\\normalfont\\bfseries\\fontsize{16}{24}\\selectfont}{\\thesection}{1em}{}\n\\titleformat{\\subsection}{\\normalfont\\bfseries\\fontsize{16}{24}\\selectfont}{\\thesubsection}{1em}{}\n\n"
    );
    assert!(render_listings(&st).starts_with("\\lstset{\n  basicstyle=\\small\\ttfamily,\n  breaklines=true,\n"));
    assert!(render_listings(&st).ends_with("  stringstyle=\\color{orange},\n}\n\n"));
    assert_eq!(
        render_misc(&st),
        "\\hypersetup{colorlinks=true, linkcolor=black, urlcolor=blue, citecolor=black}\n\\pagestyle{fancy}\n\\fancyhf{}\n\\fancyfoot[C]{\\thepage}\n\\renewcommand{\\headrulewidth}{0pt}\n\\setlength{\\parindent}{1.25cm}\n\n"
    );
    assert_eq!(
        render_misc(&style(true)),
        "\\hypersetup{colorlinks=true, linkcolor=black, urlcolor=blue, citecolor=black}\n\\pagestyle{plain}\n\\setlength{\\parindent}{1.25cm}\n\n"
    );
}

#[test]
fn heading_not_bold() {
    let mut st = style(true);
    st.fonts.heading = font("Arial", "14ptpt", "1", 14, Some(false));
    let f = render_fonts(&st);
    assert!(f.contains("\\titleformat{\\section}{\\normalfont\\fontsize{14}{14}\\selectfont}{\\thesection}{1em}{}\n"));
}

#[test]
fn latex_sizes() {
    assert_eq!(pt_to_latex_size("8pt"), "tiny");
    assert_eq!(pt_to_latex_size("9"), "footnotesize");
    assert_eq!(pt_to_latex_size("10pt"), "small");
    assert_eq!(pt_to_latex_size("11pt"), "normalsize");
    assert_eq!(pt_to_latex_size("12pt"), "small");
    assert_eq!(pt_to_latex_size("14pt"), "large");
    assert_eq!(pt_to_latex_size("16pt"), "Large");
    assert_eq!(pt_to_latex_size("18pt"), "LARGE");
    assert_eq!(pt_to_latex_size("20pt"), "huge");
    assert_eq!(pt_to_latex_size("24ptpt"), "Huge");
    assert_eq!(pt_to_latex_size("13pt"), "normalsize");
    assert_eq!(pt_to_latex_size(""), "normalsize");
    assert_eq!(pt_to_latex_size("12 pt"), "normalsize");
}

#[test]
fn abstract_is_trimmed() {
    assert_eq!(
        render_abstract("  \n Текст.\t\n"),
        "\\section*{Реферат}\n\\addcontentsline{toc}{section}{Реферат}\n\nТекст.\n\\clearpage\n\n"
    );
}

#[test]
fn algorithm_detection() {
    let alg = Block::Algorithm { id: s("a"), caption: s("c"), numbered: true, steps: vec![AlgoStep::Statement { text: s("x") }] };
    assert!(block_has_algorithm(&alg));
    assert!(!block_has_algorithm(&Block::PageBreak));
    let nested = section("a", "A", true, vec![], vec![section("b", "B", true, vec![Block::PageBreak, alg], vec![])]);
    assert!(section_has_algorithm(&nested));
    let none = section("c", "C", true, vec![Block::PageBreak], vec![]);
    assert!(!section_has_algorithm(&none));
    let doc = Document { meta: meta(), style: style(false), document: vec![none, nested] };
    assert!(has_algorithm(&doc));
    assert!(render_preamble(&doc, has_algorithm(&doc)).contains("\\usepackage{algpseudocode}\n"));
    assert!(generate(&doc).contains("\\usepackage{algorithm}\n"));
    let doc2 = Document { meta: meta(), style: style(false), document: vec![] };
    assert!(!has_algorithm(&doc2));
    assert!(!generate(&doc2).contains("\\usepackage{algorithm}"));
}

#[test]
fn title_page() {
    let doc = Document { meta: meta(), style: style(false), document: vec![] };
    let t = render_titlepage(&doc);
    assert!(t.starts_with("\\begin{titlepage}\n\\begin{center}\n\t{\\large U\n\t\t\\bigskip\n\t\tD}\n\t\\bigskip \\\\\n\t\\vfill \\textsc{\\Large курсовая работа} \\\\\n\t{\\large по дисциплине <<S>>}\n\t\\bigskip \\\\\n\tна тему: T\n\\end{center}\n"));
    assert!(t.contains("студент группы G-1    \\\\\\hline"));
    assert!(t.contains("{\\large Ivanov I.I.}"));
    assert!(t.contains("\\textbf{Принял: }\\hfill prof. \\\\\\hline\n\t\t\\\\[.3cm]\n\t\tPetrov P.P.   "));
    assert!(t.ends_with("\\end{minipage}\n\\centerline{Moscow, 2024}\n\n\\end{titlepage}\n\\clearpage\n"));
    let mut m = meta();
    m.logo = Some(s("logo.png"));
    m.faculty = Some(s("F"));
    m.chair = Some(s("K"));
    m.doc_type = Some(s("отчёт"));
    m.grade_line = true;
    let doc2 = Document { meta: m, style: style(false), document: vec![] };
    let t2 = render_titlepage(&doc2);
    assert!(t2.starts_with("\\begin{titlepage}\n\\begin{center}\n\t{\\large \\includegraphics[height=2.5cm]{logo.png}\\\\\n\\bigskip\nU\n\t\t\\textbf{F}\n\t\t\\bigskip\n\t\tD}\n\t\\bigskip \\\\\n\t\\bigskip \\\\\n\t\\textbf{K}\n\t\\vfill \\textsc{\\Large отчёт} \\\\\n"));
    assert!(t2.ends_with("\\end{minipage}\n\\centerline{\\textbf{Оценка}: \\hspace*{8cm} \\textbf{Дата}: \\hspace*{2cm}}\n\\vspace*{1cm}\n\\centerline{Moscow, 2024}\n\n\\end{titlepage}\n\\clearpage\n"));
}

#[test]
fn whole_document() {
    let mut m = meta();
    m.abstract_ = Some(s(" Abs "));
    let doc = Document {
        meta: m,
        style: style(false),
        document: vec![section("i", "Intro", true, vec![Block::Paragraph { text: s("Hi") }], vec![])],
    };
    let out = generate(&doc);
    let expected = format!(
        "{}\n\\begin{{document}}\n\n{}{}\\tableofcontents\n\\clearpage\n\n{}\n\\end{{document}}\n",
        render_preamble(&doc, false),
        render_titlepage(&doc),
        render_abstract(" Abs "),
        render_all(&doc)
    );
    assert_eq!(out, expected);
    assert_eq!(render_all(&doc), "\\section{Intro}\n\nHi\n\n");
    assert!(out.contains("\\section*{Реферат}\n\\addcontentsline{toc}{section}{Реферат}\n\nAbs\n\\clearpage\n\n\\tableofcontents"));
}
