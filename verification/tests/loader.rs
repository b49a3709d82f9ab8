use kursach::ir::loader::{
    check_id, check_path, collect_block, collect_section, import_paths, join_to, leading_spaces,
    parse_import_tag, referenced_files, resolve_imports, validate, IdKind, IdRegistry, ImportStack,
    ImportTag,
};
use kursach::ir::types::{
    BibEntry, BibKind, BibStyle, Block, CaptionStyle, Document, FigureGroupLayout, FontSet,
    FontSpec, ListItem, ListingSource, Margins, Meta, PageNumbering, PageStyle, Person, Section,
    SectionKind, Style, SubFigure, Supervisor,
};

fn s(x: &str) -> String {
    x.to_string()
}

fn font() -> FontSpec {
    FontSpec {
        family: s("F"),
        size: s("12pt"),
        line_spacing: s("1"),
        line_height: 12,
        align: None,
        bold: None,
        italic: None,
        indent: None,
    }
}

fn doc(sections: Vec<Section>) -> Document {
    let cap = || CaptionStyle { align: None, caption_position: s("top"), caption_format: s("f") };
    Document {
        meta: Meta {
            university: s("U"),
            department: s("D"),
            subject: s("S"),
            title: s("T"),
            author: Person { name: s("N"), group: s("G") },
            supervisor: Supervisor { name: s("N"), title: s("T") },
            year: 2024,
            city: s("C"),
            logo: None,
            abstract_: None,
            faculty: None,
            chair: None,
            doc_type: None,
            grade_line: true,
        },
        style: Style {
            page: PageStyle {
                margins: Margins { left: s("1"), right: s("1"), top: s("1"), bottom: s("1") },
                numbering: PageNumbering { start_from: 1, show_on_title: false },
            },
            fonts: FontSet { main: font(), heading: font(), caption: font(), listing_body: font() },
            figures: cap(),
            tables: cap(),
            listings: cap(),
            bibliography: BibStyle { standard: s("g"), label_format: s("n") },
        },
        document: sections,
    }
}

fn regular(id: &str, body: Vec<Block>, subs: Vec<Section>) -> Section {
    Section { id: s(id), title: s(id), numbered: true, kind: SectionKind::Regular { body, subsections: subs } }
}

fn figure(id: &str, path: &str) -> Block {
    Block::Figure { id: s(id), path: s(path), caption: s("c"), width: s("0.5") }
}

fn sample() -> Document {
    doc(vec![
        regular(
            "intro",
            vec![
                figure("f1", "a.png"),
                Block::Formula { id: Some(s("intro")), content: s("x") },
                Block::List {
                    ordered: false,
                    items: vec![ListItem::Text(s("t")), ListItem::Nested(Box::new(figure("f2", "/abs/b.png")))],
                },
            ],
            vec![regular(
                "sub",
                vec![
                    Block::Listing {
                        id: s("f1"),
                        source: ListingSource::File { path: s("code.rs") },
                        language: s("Rust"),
                        caption: s("c"),
                        range: None,
                    },
                    Block::FigureGroup {
                        id: s("g"),
                        caption: s("c"),
                        layout: FigureGroupLayout::Horizontal,
                        figures: vec![SubFigure { path: s("s1.png"), subcaption: s("a"), width: s("0.4") }],
                    },
                ],
                vec![],
            )],
        ),
        Section {
            id: s("bib"),
            title: s("Bib"),
            numbered: false,
            kind: SectionKind::Bibliography {
                entries: vec![BibEntry {
                    id: s("g"),
                    kind: BibKind::Online { authors: vec![], title: s("t"), url: s("u"), accessed: s("a") },
                }],
            },
        },
    ])
}

#[test]
fn files_are_listed_in_order() {
    assert_eq!(
        referenced_files(&sample(), "docs"),
        vec![s("docs/a.png"), s("/abs/b.png"), s("docs/code.rs"), s("docs/s1.png")]
    );
    assert_eq!(referenced_files(&sample(), "")[0], "a.png");
    assert_eq!(referenced_files(&sample(), "docs/")[0], "docs/a.png");
}

#[test]
fn path_joining() {
    assert_eq!(join_to("a/b", "c.png"), "a/b/c.png");
    assert_eq!(join_to("a/b/", "c.png"), "a/b/c.png");
    assert_eq!(join_to("", "c.png"), "c.png");
    assert_eq!(join_to("a", "/x/c.png"), "/x/c.png");
    assert_eq!(join_to(".", "c.png"), "./c.png");
}

#[test]
fn duplicate_ids_and_missing_files_are_reported() {
    let r = validate(&sample(), "docs", &vec![s("docs/code.rs")]);
    assert_eq!(
        r,
        Err(s("Document validation failed:\n  Duplicate id 'intro': first seen as section, redefined as formula\n  Duplicate id 'f1': first seen as figure, redefined as listing\n  Missing file: docs/code.rs\n  Duplicate id 'g': first seen as figure_group, redefined as bib entry"))
    );
}

#[test]
fn clean_document_passes() {
    let d = doc(vec![regular("a", vec![figure("f", "x.png")], vec![regular("b", vec![], vec![])])]);
    assert_eq!(validate(&d, "dir", &vec![s("dir/y.png")]), Ok(()));
    assert_eq!(validate(&doc(vec![]), "", &vec![]), Ok(()));
    assert_eq!(
        validate(&d, "dir", &vec![s("dir/x.png")]),
        Err(s("Document validation failed:\n  Missing file: dir/x.png"))
    );
}

#[test]
fn check_id_registers_and_reports() {
    let mut ids = IdRegistry::new();
    let mut errors: Vec<String> = Vec::new();
    check_id("a", IdKind::Table, &mut ids, &mut errors);
    assert!(errors.is_empty());
    assert_eq!(ids.get("a"), Some(IdKind::Table));
    assert_eq!(ids.get("b"), None);
    check_id("a", IdKind::Listing, &mut ids, &mut errors);
    assert_eq!(errors, vec![s("  Duplicate id 'a': first seen as table, redefined as listing")]);
    assert_eq!(ids.get("a"), Some(IdKind::Table));
    assert_eq!(IdKind::BibEntry.name(), "bib entry");
    assert_eq!(IdKind::FigureGroup.name(), "figure_group");
}

#[test]
fn check_path_reports_missing() {
    let mut errors: Vec<String> = Vec::new();
    check_path("x.png", "d", &vec![s("d/y.png")], &mut errors);
    assert!(errors.is_empty());
    check_path("y.png", "d", &vec![s("d/y.png")], &mut errors);
    assert_eq!(errors, vec![s("  Missing file: d/y.png")]);
}

#[test]
fn collecting_walks_nested_blocks() {
    let mut ids = IdRegistry::new();
    let mut errors: Vec<String> = Vec::new();
    let list = Block::List {
        ordered: true,
        items: vec![ListItem::Nested(Box::new(Block::Table { id: s("t"), caption: s("c"), columns: vec![], rows: vec![] }))],
    };
    collect_block(&list, "", &vec![], &mut ids, &mut errors);
    assert_eq!(ids.get("t"), Some(IdKind::Table));
    collect_section(&regular("t", vec![], vec![]), "", &vec![], &mut ids, &mut errors);
    assert_eq!(errors, vec![s("  Duplicate id 't': first seen as table, redefined as section")]);
}

#[test]
fn import_tags() {
    match parse_import_tag("  - !import \"chapters/one.yaml\"  ") {
        ImportTag::Bare { path, indent } => {
            assert_eq!(path, "chapters/one.yaml");
            assert_eq!(indent, "  ");
        }
        _ => panic!("expected a bare import"),
    }
    match parse_import_tag("!import 'a.yaml'") {
        ImportTag::Bare { path, indent } => {
            assert_eq!(path, "a.yaml");
            assert_eq!(indent, "");
        }
        _ => panic!("expected a bare import"),
    }
    match parse_import_tag("    style: !import style.yaml") {
        ImportTag::Keyed { key, path, indent } => {
            assert_eq!(key, "style");
            assert_eq!(path, "style.yaml");
            assert_eq!(indent, "    ");
        }
        _ => panic!("expected a keyed import"),
    }
    assert!(matches!(parse_import_tag("title: Import of goods"), ImportTag::Plain));
    assert!(matches!(parse_import_tag("- !importx"), ImportTag::Plain));
    assert_eq!(leading_spaces("\t  x "), "\t  ");
    assert_eq!(leading_spaces("x"), "");
}

#[test]
fn splicing_imports() {
    let content = "document:\n  - !import a.yaml\nstyle: !import s.yaml\nend: 1\r\n";
    assert_eq!(import_paths(content), vec![s("a.yaml"), s("s.yaml")]);
    let imported = vec![s("id: a\ntitle: A\n"), s("page:\n  x: 1")];
    assert_eq!(
        resolve_imports(content, &imported),
        Some(s("document:\n  - id: a\n    title: A\nstyle:\n  page:\n    x: 1\nend: 1\n"))
    );
    assert_eq!(resolve_imports(content, &vec![s("x")]), None);
    assert_eq!(resolve_imports(content, &vec![s("x"), s("y"), s("z")]), None);
    assert_eq!(resolve_imports("a\n\nb", &vec![]), Some(s("a\n\nb\n")));
    assert_eq!(resolve_imports("- !import e.yaml\n", &vec![s("")]), Some(s("")));
    assert_eq!(resolve_imports("k: !import e.yaml", &vec![s("")]), Some(s("k:\n")));
}

#[test]
fn import_stack_detects_cycles() {
    let mut st = ImportStack::new();
    assert_eq!(st.enter("/a.yaml"), Ok(()));
    assert_eq!(st.enter("/b.yaml"), Ok(()));
    assert_eq!(
        st.enter("/a.yaml"),
        Err(s("Cyclic import detected: '/a.yaml' is already being imported.\nImport stack: /a.yaml -> /b.yaml"))
    );
    st.leave("/b.yaml");
    assert_eq!(st.enter("/b.yaml"), Ok(()));
    st.leave("/b.yaml");
    st.leave("/a.yaml");
    assert_eq!(st.enter("/a.yaml"), Ok(()));
}
