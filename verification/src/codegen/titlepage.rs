//! The title page.
use vstd::prelude::*;

use crate::codegen::blocks::text_or;
use crate::ir::types::{Document, Meta};
use crate::text::{dec, push_dec};

verus! {

/// The logo picture, when there is one.
pub open spec fn logo_block(logo: Option<String>) -> Seq<char> {
    match logo {
        Some(p) => "\\includegraphics[height=2.5cm]{"@ + p@ + "}\\\\\n\\bigskip\n"@,
        None => Seq::empty(),
    }
}

/// The faculty line, when there is one.
pub open spec fn faculty_line(faculty: Option<String>) -> Seq<char> {
    match faculty {
        Some(f) => "\n\t\t\\textbf{"@ + f@ + "}"@,
        None => Seq::empty(),
    }
}

/// The chair line, when there is one.
pub open spec fn chair_line(chair: Option<String>) -> Seq<char> {
    match chair {
        Some(c) => "\t\\bigskip \\\\\n\t\\textbf{"@ + c@ + "}\n"@,
        None => Seq::empty(),
    }
}

/// The grade/date line, when it is asked for.
pub open spec fn grade_line_text(shown: bool) -> Seq<char> {
    if shown {
        "\\centerline{\\textbf{Оценка}: \\hspace*{8cm} \\textbf{Дата}: \\hspace*{2cm}}\n\\vspace*{1cm}\n"@
    } else {
        Seq::empty()
    }
}

/// The LaTeX for the title page.
pub open spec fn titlepage_text(m: Meta) -> Seq<char> {
    "\\begin{titlepage}\n\\begin{center}\n\t{\\large "@
        + logo_block(m.logo)
        + m.university@
        + faculty_line(m.faculty)
        + "\n\t\t\\bigskip\n\t\t"@
        + m.department@
        + "}\n\t\\bigskip \\\\\n"@
        + chair_line(m.chair)
        + "\t\\vfill \\textsc{\\Large "@
        + text_or(m.doc_type, "курсовая работа"@)
        + "} \\\\\n\t{\\large по дисциплине <<"@
        + m.subject@
        + ">>}\n\t\\bigskip \\\\\n\tна тему: "@
        + m.title@
        + "\n\\end{center}\n\\vspace*{1.5cm}\n\\hfill\n\\begin{minipage}{.6\\linewidth}\n\t\\begin{tabular}{c}\n\t\t\\textbf{Выполнил:} студент группы "@
        + m.author.group@
        + "    \\\\\\hline \\\\[.3cm]\n\t\t{\\large "@
        + m.author.name@
        + "}                        \\\\ \\hline \\scriptsize{(Фамилия, имя, отчество)}\n\t\t\\\\[.3cm] \\\\ \\hline\n\t\t\\scriptsize{(подпись)}                        \\\\[.3cm]\n\t\t\\textbf{Принял: }\\hfill "@
        + m.supervisor.title@
        + " \\\\\\hline\n\t\t\\\\[.3cm]\n\t\t"@
        + m.supervisor.name@
        + "                               \\\\ \\hline\n\t\t\\scriptsize{(Фамилия, имя, отчество)}\n\t\t\\\\[.3cm] \\\\ \\hline\n\t\t\\scriptsize{(подпись)}\n\t\\end{tabular}\n\t\\vspace*{1cm}\n\\end{minipage}\n"@
        + grade_line_text(m.grade_line)
        + "\\centerline{"@
        + m.city@
        + ", "@
        + dec(m.year as nat)
        + "}\n\n\\end{titlepage}\n\\clearpage\n"@
}

fn push_logo(out: &mut String, logo: &Option<String>)
    ensures
        final(out)@ == old(out)@ + logo_block(*logo),
{
    match logo {
        Some(p) => {
            out.append("\\includegraphics[height=2.5cm]{");
            out.append(p.as_str());
            out.append("}\\\\\n\\bigskip\n");
        },
        None => {},
    }
}

fn push_faculty(out: &mut String, faculty: &Option<String>)
    ensures
        final(out)@ == old(out)@ + faculty_line(*faculty),
{
    match faculty {
        Some(f) => {
            out.append("\n\t\t\\textbf{");
            out.append(f.as_str());
            out.append("}");
        },
        None => {},
    }
}

fn push_chair(out: &mut String, chair: &Option<String>)
    ensures
        final(out)@ == old(out)@ + chair_line(*chair),
{
    match chair {
        Some(c) => {
            out.append("\t\\bigskip \\\\\n\t\\textbf{");
            out.append(c.as_str());
            out.append("}\n");
        },
        None => {},
    }
}

/// Renders the title page.
pub fn render(doc: &Document) -> (r: String)
    ensures
        r@ == titlepage_text(doc.meta),
{
    let m = &doc.meta;
    let mut out = String::new();
    out.append("\\begin{titlepage}\n\\begin{center}\n\t{\\large ");
    push_logo(&mut out, &m.logo);
    out.append(m.university.as_str());
    push_faculty(&mut out, &m.faculty);
    out.append("\n\t\t\\bigskip\n\t\t");
    out.append(m.department.as_str());
    out.append("}\n\t\\bigskip \\\\\n");
    push_chair(&mut out, &m.chair);
    out.append("\t\\vfill \\textsc{\\Large ");
    match &m.doc_type {
        Some(t) => out.append(t.as_str()),
        None => out.append("курсовая работа"),
    }
    out.append("} \\\\\n\t{\\large по дисциплине <<");
    out.append(m.subject.as_str());
    out.append(">>}\n\t\\bigskip \\\\\n\tна тему: ");
    out.append(m.title.as_str());
    out.append("\n\\end{center}\n\\vspace*{1.5cm}\n\\hfill\n\\begin{minipage}{.6\\linewidth}\n\t\\begin{tabular}{c}\n\t\t\\textbf{Выполнил:} студент группы ");
    out.append(m.author.group.as_str());
    out.append("    \\\\\\hline \\\\[.3cm]\n\t\t{\\large ");
    out.append(m.author.name.as_str());
    out.append("}                        \\\\ \\hline \\scriptsize{(Фамилия, имя, отчество)}\n\t\t\\\\[.3cm] \\\\ \\hline\n\t\t\\scriptsize{(подпись)}                        \\\\[.3cm]\n\t\t\\textbf{Принял: }\\hfill ");
    out.append(m.supervisor.title.as_str());
    out.append(" \\\\\\hline\n\t\t\\\\[.3cm]\n\t\t");
    out.append(m.supervisor.name.as_str());
    out.append("                               \\\\ \\hline\n\t\t\\scriptsize{(Фамилия, имя, отчество)}\n\t\t\\\\[.3cm] \\\\ \\hline\n\t\t\\scriptsize{(подпись)}\n\t\\end{tabular}\n\t\\vspace*{1cm}\n\\end{minipage}\n");
    if m.grade_line {
        out.append(
            "\\centerline{\\textbf{Оценка}: \\hspace*{8cm} \\textbf{Дата}: \\hspace*{2cm}}\n\\vspace*{1cm}\n",
        );
    }
    out.append("\\centerline{");
    out.append(m.city.as_str());
    out.append(", ");
    push_dec(&mut out, m.year as u64);
    out.append("}\n\n\\end{titlepage}\n\\clearpage\n");
    assert(out@ =~= titlepage_text(doc.meta));
    out
}

} // verus!
