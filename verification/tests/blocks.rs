use kursach::codegen::blocks::{render, render_algo_steps, render_algorithm, render_table};
use kursach::ir::types::{AlgoStep, Block, FigureGroupLayout, ListItem, ListingSource, SubFigure};

fn s(x: &str) -> String {
    x.to_string()
}

#[test]
fn paragraph_and_formulas() {
    assert_eq!(render(&Block::Paragraph { text: s("Text {{bold:b}}") }), "Text \\textbf{b}\n\n");
    assert_eq!(
        render(&Block::Formula { id: Some(s("eq1")), content: s("a = b") }),
        "\\begin{equation}\\label{eq1}\na = b\n\\end{equation}\n\n"
    );
    assert_eq!(render(&Block::Formula { id: None, content: s("x") }), "\\[\nx\n\\]\n\n");
}

#[test]
fn figure() {
    let b = Block::Figure {
        id: s("f1"),
        path: s("img/a.png"),
        caption: s("Схема {{ref:t}}"),
        width: s("0.8"),
    };
    assert_eq!(
        render(&b),
        "\\begin{figure}[h]\n\\centering\n\\includegraphics[width=0.8\\linewidth]{img/a.png}\n\\caption{Схема \\ref{t}}\\label{f1}\n\\end{figure}\n\n"
    );
}

#[test]
fn figure_group() {
    let b = Block::FigureGroup {
        id: s("g"),
        caption: s("Both"),
        layout: FigureGroupLayout::Vertical,
        figures: vec![
            SubFigure { path: s("a.png"), subcaption: s("A"), width: s("0.45") },
            SubFigure { path: s("b.png"), subcaption: s("B"), width: s("0.5") },
        ],
    };
    assert_eq!(
        render(&b),
        "\\begin{figure}[h]\n\\centering\n\
\\begin{subfigure}[b]{0.45\\linewidth}\n\\includegraphics[width=\\linewidth]{a.png}\n\\caption{A}\n\\end{subfigure}\n\\hfill\n\
\\begin{subfigure}[b]{0.5\\linewidth}\n\\includegraphics[width=\\linewidth]{b.png}\n\\caption{B}\n\\end{subfigure}\n\\hfill\n\
\\caption{Both}\\label{g}\n\\end{figure}\n\n"
    );
}

#[test]
fn listings() {
    let file = Block::Listing {
        id: s("l1"),
        source: ListingSource::File { path: s("src/main.rs") },
        language: s("Rust"),
        caption: s("Main"),
        range: Some((3, 120)),
    };
    assert_eq!(
        render(&file),
        "\\lstinputlisting[language=Rust, caption={Main}, label=l1, firstline=3, lastline=120]{src/main.rs}\n\n"
    );
    let file_all = Block::Listing {
        id: s("l2"),
        source: ListingSource::File { path: s("a.py") },
        language: s("Python"),
        caption: s("C"),
        range: None,
    };
    assert_eq!(
        render(&file_all),
        "\\lstinputlisting[language=Python, caption={C}, label=l2]{a.py}\n\n"
    );
    let inline = Block::Listing {
        id: s("l3"),
        source: ListingSource::Inline { content: s("fn main() {}\n\n  ") },
        language: s("Rust"),
        caption: s("{{code:main}}"),
        range: Some((1, 2)),
    };
    assert_eq!(
        render(&inline),
        "\\begin{lstlisting}[language=Rust, caption={\\texttt{main}}, label=l3]\nfn main() {}\n\\end{lstlisting}\n\n"
    );
}

#[test]
fn table() {
    let cols = vec![s("A"), s("{{bold:B}}")];
    let rows = vec![vec![s("1"), s("2")], vec![s("3")]];
    let expected = "\\begin{table}[h]\n\\centering\n\\caption{T}\\label{t1}\n\\begin{tabular}{l | l}\n\\hline\nA & \\textbf{B} \\\\\n\\hline\n1 & 2 \\\\\n3 \\\\\n\\hline\n\\end{tabular}\n\\end{table}\n\n";
    assert_eq!(render_table("t1", "T", &cols, &rows), expected);
    assert_eq!(
        render(&Block::Table { id: s("t1"), caption: s("T"), columns: cols, rows }),
        expected
    );
    assert_eq!(
        render_table("e", "", &vec![], &vec![]),
        "\\begin{table}[h]\n\\centering\n\\caption{}\\label{e}\n\\begin{tabular}{}\n\\hline\n \\\\\n\\hline\n\\hline\n\\end{tabular}\n\\end{table}\n\n"
    );
}

#[test]
fn lists_nest() {
    let b = Block::List {
        ordered: true,
        items: vec![
            ListItem::Text(s("one")),
            ListItem::Nested(Box::new(Block::List {
                ordered: false,
                items: vec![ListItem::Text(s("inner {{cite:k}}"))],
            })),
        ],
    };
    assert_eq!(
        render(&b),
        "\\begin{enumerate}\n  \\item one\n  \\item\n\\begin{itemize}\n  \\item inner \\cite{k}\n\\end{itemize}\n\n\\end{enumerate}\n\n"
    );
}

#[test]
fn notes_and_warnings() {
    assert_eq!(
        render(&Block::Note { text: s("n"), title: None }),
        "\\begin{tcolorbox}[colback=blue!5!white, colframe=blue!50!black, title=Примечание]\nn\n\\end{tcolorbox}\n\n"
    );
    assert_eq!(
        render(&Block::Warning { text: s("w"), title: Some(s("Осторожно")) }),
        "\\begin{tcolorbox}[colback=red!5!white, colframe=red!60!black, title=Осторожно]\nw\n\\end{tcolorbox}\n\n"
    );
    assert_eq!(
        render(&Block::Warning { text: s("w"), title: None }),
        "\\begin{tcolorbox}[colback=red!5!white, colframe=red!60!black, title=Внимание]\nw\n\\end{tcolorbox}\n\n"
    );
}

#[test]
fn page_break_and_raw() {
    assert_eq!(render(&Block::PageBreak), "\\clearpage\n\n");
    assert_eq!(render(&Block::RawLatex { content: s("\\vspace{1cm}") }), "\\vspace{1cm}\n\n");
}

#[test]
fn algorithm_with_nesting() {
    let steps = vec![
        AlgoStep::Require { text: s("n") },
        AlgoStep::For {
            var: s("i = 1..n"),
            body: vec![AlgoStep::If {
                cond: s("i > 2"),
                body: vec![AlgoStep::Statement { text: s("x") }],
                else_: vec![AlgoStep::Comment { text: s("skip") }],
            }],
        },
        AlgoStep::While { cond: s("w"), body: vec![] },
        AlgoStep::If { cond: s("c"), body: vec![AlgoStep::Return { text: s("r") }], else_: vec![] },
        AlgoStep::Ensure { text: s("e") },
    ];
    let lines = "  \\Require n\n  \\For{$i = 1..n$}\n    \\If{$i > 2$}\n      \\State x\n    \\Else\n      \\Comment{skip}\n    \\EndIf\n  \\EndFor\n  \\While{$w$}\n  \\EndWhile\n  \\If{$c$}\n    \\State \\Return r\n  \\EndIf\n  \\Ensure e\n";
    let mut out = String::new();
    render_algo_steps(&steps, 0, &mut out);
    assert_eq!(out, lines);
    let expected = format!(
        "\\begin{{algorithm}}\n\\caption{{Sort}}\\label{{a1}}\n\\begin{{algorithmic}}[1]\n{}\\end{{algorithmic}}\n\\end{{algorithm}}\n\n",
        lines
    );
    assert_eq!(render_algorithm("a1", "Sort", true, &steps), expected);
    let b = Block::Algorithm { id: s("a1"), caption: s("Sort"), numbered: false, steps };
    assert_eq!(render(&b), expected.replace("{algorithm}", "{algorithm*}"));
}

#[test]
fn algorithm_steps_deeper() {
    let steps = vec![AlgoStep::Statement { text: s("s") }];
    let mut out = String::from("X");
    render_algo_steps(&steps, 2, &mut out);
    assert_eq!(out, "X      \\State s\n");
}
