//! Rendering of sections (headings, bodies, subsections) and of the
//! bibliography.
use vstd::prelude::*;

use crate::codegen::blocks::{block_text, render, BibFormat};
use crate::ir::types::{BibEntry, BibKind, Block, Document, Section, SectionKind};
use crate::text::{
    concat_map, dec, join, lemma_concat_map_append, lemma_concat_map_at, lemma_concat_map_single,
    push_dec, push_join, views,
};

verus! {

// ───────────────────────────── specifications ─────────────────────────────

/// The heading command for a section at nesting `depth`.
pub open spec fn section_cmd(depth: nat, numbered: bool) -> Seq<char> {
    if depth == 0 {
        if numbered {
            "\\section"@
        } else {
            "\\section*"@
        }
    } else if depth == 1 {
        if numbered {
            "\\subsection"@
        } else {
            "\\subsection*"@
        }
    } else {
        if numbered {
            "\\subsubsection"@
        } else {
            "\\subsubsection*"@
        }
    }
}

/// The table-of-contents level for a section at nesting `depth`.
pub open spec fn toc_level(depth: nat) -> Seq<char> {
    if depth == 0 {
        "section"@
    } else if depth == 1 {
        "subsection"@
    } else {
        "subsubsection"@
    }
}

/// The LaTeX for blocks, in order.
pub open spec fn blocks_text(blocks: Seq<Block>) -> Seq<char>
    decreases blocks.len(),
{
    if blocks.len() == 0 {
        Seq::empty()
    } else {
        blocks_text(blocks.drop_last()) + block_text(blocks.last())
    }
}

/// The text of an optional number `n` as ` n с.` (nothing when absent).
pub open spec fn pages_count(pages: Option<u32>) -> Seq<char> {
    match pages {
        Some(p) => " "@ + dec(p as nat) + " с."@,
        None => Seq::empty(),
    }
}

/// An optional part `prefix + text + "."` (nothing when absent).
pub open spec fn opt_part(o: Option<String>, prefix: Seq<char>) -> Seq<char> {
    match o {
        Some(v) => prefix + v@ + "."@,
        None => Seq::empty(),
    }
}

/// The text of one bibliography entry.
pub open spec fn bib_entry_text(kind: BibKind) -> Seq<char> {
    match kind {
        BibKind::Book { authors, title, publisher, year, city, pages } => join(
            views(authors@),
            ", "@,
        ) + " "@ + title@ + ". --- "@ + city@ + ": "@ + publisher@ + ", "@ + dec(year as nat)
            + "."@ + pages_count(pages),
        BibKind::Article { authors, title, journal, year, volume, pages } => join(
            views(authors@),
            ", "@,
        ) + " "@ + title@ + " // "@ + journal@ + "."@ + opt_part(volume, " Т. "@) + " "@ + dec(
            year as nat,
        ) + "."@ + opt_part(pages, " С. "@),
        BibKind::Online { authors, title, url, accessed } => (if authors.len() == 0 {
            Seq::empty()
        } else {
            join(views(authors@), ", "@) + " "@
        }) + title@ + ". --- URL: \\url{"@ + url@ + "} (дата обращения: "@ + accessed@ + ")."@,
        BibKind::Thesis { authors, title, degree, city, year, pages } => join(
            views(authors@),
            ", "@,
        ) + " "@ + title@ + ": "@ + (match degree {
            Some(d) => d@,
            None => "дис. ... канд. техн. наук"@,
        }) + ". --- "@ + city@ + ", "@ + dec(year as nat) + "."@ + pages_count(pages),
    }
}

/// The `\bibitem` lines for bibliography entries, in order.
pub open spec fn bibitems_text(entries: Seq<BibEntry>) -> Seq<char>
    decreases entries.len(),
{
    if entries.len() == 0 {
        Seq::empty()
    } else {
        bibitems_text(entries.drop_last()) + "  \\bibitem{"@ + entries.last().id@ + "}\n  "@
            + bib_entry_text(entries.last().kind) + "\n"@
    }
}

/// The LaTeX for a bibliography.
pub open spec fn bibliography_text(entries: Seq<BibEntry>) -> Seq<char> {
    "\\begin{thebibliography}{"@ + dec(entries.len()) + "}\n"@ + bibitems_text(entries)
        + "\\end{thebibliography}\n\n"@
}

/// The heading line of a section (none for a bibliography).
pub open spec fn section_head(s: Section, depth: nat) -> Seq<char> {
    match s.kind {
        SectionKind::Bibliography { .. } => Seq::empty(),
        SectionKind::Regular { .. } => section_cmd(depth, s.numbered) + "{"@ + s.title@ + "}\n"@,
    }
}

/// The table-of-contents line of an unnumbered section (none otherwise).
pub open spec fn section_toc(s: Section, depth: nat) -> Seq<char> {
    if !s.numbered {
        "\\addcontentsline{toc}{"@ + toc_level(depth) + "}{"@ + s.title@ + "}\n"@
    } else {
        Seq::empty()
    }
}

/// The LaTeX for a section at nesting `depth`, with everything inside it.
pub open spec fn section_text(s: Section, depth: nat) -> Seq<char>
    decreases s, 1int,
{
    section_head(s, depth) + section_toc(s, depth) + "\n"@ + match s.kind {
        SectionKind::Regular { body, subsections } => blocks_text(body@) + sections_text(
            subsections@,
            depth + 1,
        ),
        SectionKind::Bibliography { entries } => bibliography_text(entries@),
    }
}

/// The LaTeX for sections at nesting `depth`, in order.
pub open spec fn sections_text(ss: Seq<Section>, depth: nat) -> Seq<char>
    decreases ss, 0int,
{
    if ss.len() == 0 {
        Seq::empty()
    } else {
        sections_text(ss.drop_last(), depth) + section_text(ss.last(), depth)
    }
}

/// The LaTeX for all sections of a document.
pub open spec fn document_text(doc: Document) -> Seq<char> {
    sections_text(doc.document@, 0)
}

// ───────────────────────────── lemmas ─────────────────────────────

/// Below the second level, every nesting depth renders alike.
pub proof fn lemma_section_deep(s: Section, d1: nat, d2: nat)
    requires
        d1 >= 2,
        d2 >= 2,
    ensures
        section_text(s, d1) == section_text(s, d2),
    decreases s, 1int,
{
    match s.kind {
        SectionKind::Regular { body, subsections } => {
            lemma_sections_deep(subsections@, d1 + 1, d2 + 1);
        },
        SectionKind::Bibliography { .. } => {},
    }
}

/// Below the second level, every nesting depth renders alike.
pub proof fn lemma_sections_deep(ss: Seq<Section>, d1: nat, d2: nat)
    requires
        d1 >= 2,
        d2 >= 2,
    ensures
        sections_text(ss, d1) == sections_text(ss, d2),
    decreases ss, 0int,
{
    if ss.len() > 0 {
        lemma_sections_deep(ss.drop_last(), d1, d2);
        lemma_section_deep(ss.last(), d1, d2);
    }
}

// ───────────────────────────── executable ─────────────────────────────

/// Formats one bibliography entry.
pub fn format_bib_entry(entry: &BibEntry) -> (r: String)
    ensures
        r@ == bib_entry_text(entry.kind),
{
    let mut out = String::new();
    match &entry.kind {
        BibKind::Book { authors, title, publisher, year, city, pages } => {
            push_join(&mut out, authors, ", ");
            out.append(" ");
            out.append(title.as_str());
            out.append(". --- ");
            out.append(city.as_str());
            out.append(": ");
            out.append(publisher.as_str());
            out.append(", ");
            push_dec(&mut out, *year as u64);
            out.append(".");
            let ghost mid = out@;
            match pages {
                Some(p) => {
                    out.append(" ");
                    push_dec(&mut out, *p as u64);
                    out.append(" с.");
                },
                None => {},
            }
            assert(out@ =~= mid + pages_count(*pages));
        },
        BibKind::Article { authors, title, journal, year, volume, pages } => {
            push_join(&mut out, authors, ", ");
            out.append(" ");
            out.append(title.as_str());
            out.append(" // ");
            out.append(journal.as_str());
            out.append(".");
            let ghost mid = out@;
            match volume {
                Some(v) => {
                    out.append(" Т. ");
                    out.append(v.as_str());
                    out.append(".");
                },
                None => {},
            }
            assert(out@ =~= mid + opt_part(*volume, " Т. "@));
            out.append(" ");
            push_dec(&mut out, *year as u64);
            out.append(".");
            let ghost mid2 = out@;
            match pages {
                Some(p) => {
                    out.append(" С. ");
                    out.append(p.as_str());
                    out.append(".");
                },
                None => {},
            }
            assert(out@ =~= mid2 + opt_part(*pages, " С. "@));
        },
        BibKind::Online { authors, title, url, accessed } => {
            if authors.len() > 0 {
                push_join(&mut out, authors, ", ");
                out.append(" ");
            }
            out.append(title.as_str());
            out.append(". --- URL: \\url{");
            out.append(url.as_str());
            out.append("} (дата обращения: ");
            out.append(accessed.as_str());
            out.append(").");
        },
        BibKind::Thesis { authors, title, degree, city, year, pages } => {
            push_join(&mut out, authors, ", ");
            out.append(" ");
            out.append(title.as_str());
            out.append(": ");
            match degree {
                Some(d) => out.append(d.as_str()),
                None => out.append("дис. ... канд. техн. наук"),
            }
            out.append(". --- ");
            out.append(city.as_str());
            out.append(", ");
            push_dec(&mut out, *year as u64);
            out.append(".");
            let ghost mid = out@;
            match pages {
                Some(p) => {
                    out.append(" ");
                    push_dec(&mut out, *p as u64);
                    out.append(" с.");
                },
                None => {},
            }
            assert(out@ =~= mid + pages_count(*pages));
        },
    }
    assert(out@ =~= bib_entry_text(entry.kind));
    out
}

/// Renders a bibliography.
pub fn render_bibliography(entries: &Vec<BibEntry>, _fmt: &BibFormat) -> (r: String)
    ensures
        r@ == bibliography_text(entries@),
{
    let mut out = String::new();
    out.append("\\begin{thebibliography}{");
    push_dec(&mut out, entries.len() as u64);
    out.append("}\n");
    let ghost head = out@;
    let n = entries.len();
    for i in 0..n
        invariant
            n == entries.len(),
            out@ == head + bibitems_text(entries@.take(i as int)),
    {
        assert(entries@.take(i + 1).drop_last() =~= entries@.take(i as int));
        let text = format_bib_entry(&entries[i]);
        out.append("  \\bibitem{");
        out.append(entries[i].id.as_str());
        out.append("}\n  ");
        out.append(text.as_str());
        out.append("\n");
    }
    assert(entries@.take(n as int) =~= entries@);
    out.append("\\end{thebibliography}\n\n");
    out
}

/// Appends the LaTeX for blocks, in order.
fn push_blocks(out: &mut String, blocks: &Vec<Block>)
    ensures
        final(out)@ == old(out)@ + blocks_text(blocks@),
{
    let n = blocks.len();
    for i in 0..n
        invariant
            n == blocks.len(),
            out@ == old(out)@ + blocks_text(blocks@.take(i as int)),
    {
        assert(blocks@.take(i + 1).drop_last() =~= blocks@.take(i as int));
        let t = render(&blocks[i]);
        out.append(t.as_str());
    }
    assert(blocks@.take(n as int) =~= blocks@);
}

/// Appends the LaTeX for sections at nesting `depth`.
fn push_sections(out: &mut String, ss: &Vec<Section>, depth: usize)
    requires
        depth <= 2,
    ensures
        final(out)@ == old(out)@ + sections_text(ss@, depth as nat),
    decreases ss, 0int,
{
    let n = ss.len();
    for i in 0..n
        invariant
            n == ss.len(),
            depth <= 2,
            out@ == old(out)@ + sections_text(ss@.take(i as int), depth as nat),
    {
        assert(ss@.take(i + 1).drop_last() =~= ss@.take(i as int));
        push_section(out, &ss[i], depth);
    }
    assert(ss@.take(n as int) =~= ss@);
}

/// Appends the heading and table-of-contents lines of a section and the
/// blank line after them.
fn push_heading(out: &mut String, section: &Section, depth: usize)
    ensures
        final(out)@ == old(out)@ + section_head(*section, depth as nat) + section_toc(
            *section,
            depth as nat,
        ) + "\n"@,
{
    let ghost before = out@;
    let cmd = if depth == 0 {
        if section.numbered {
            "\\section"
        } else {
            "\\section*"
        }
    } else if depth == 1 {
        if section.numbered {
            "\\subsection"
        } else {
            "\\subsection*"
        }
    } else {
        if section.numbered {
            "\\subsubsection"
        } else {
            "\\subsubsection*"
        }
    };
    assert(cmd@ == section_cmd(depth as nat, section.numbered));
    let level = if depth == 0 {
        "section"
    } else if depth == 1 {
        "subsection"
    } else {
        "subsubsection"
    };
    assert(level@ == toc_level(depth as nat));
    match &section.kind {
        SectionKind::Bibliography { .. } => {},
        SectionKind::Regular { .. } => {
            out.append(cmd);
            out.append("{");
            out.append(section.title.as_str());
            out.append("}\n");
        },
    }
    assert(out@ =~= before + section_head(*section, depth as nat));
    let ghost after_head = out@;
    if !section.numbered {
        out.append("\\addcontentsline{toc}{");
        out.append(level);
        out.append("}{");
        out.append(section.title.as_str());
        out.append("}\n");
    }
    assert(out@ =~= after_head + section_toc(*section, depth as nat));
    out.append("\n");
}

/// Appends the LaTeX for a section at nesting `depth`.
fn push_section(out: &mut String, section: &Section, depth: usize)
    requires
        depth <= 2,
    ensures
        final(out)@ == old(out)@ + section_text(*section, depth as nat),
    decreases section, 1int,
{
    let ghost before = out@;
    push_heading(out, section, depth);
    let ghost mid = out@;
    match &section.kind {
        SectionKind::Regular { body, subsections } => {
            push_blocks(out, body);
            let next = if depth < 2 {
                depth + 1
            } else {
                2
            };
            proof {
                if depth == 2 {
                    lemma_sections_deep(subsections@, 3, 2);
                }
            }
            push_sections(out, subsections, next);
            assert(out@ =~= mid + (blocks_text(body@) + sections_text(
                subsections@,
                (depth + 1) as nat,
            )));
        },
        SectionKind::Bibliography { entries } => {
            let t = render_bibliography(entries, &BibFormat);
            out.append(t.as_str());
            assert(out@ =~= mid + bibliography_text(entries@));
        },
    }
    assert(out@ =~= before + section_text(*section, depth as nat));
}

/// Renders a section at nesting `depth` (0 for a top-level section).
pub fn render_section(section: &Section, depth: usize) -> (r: String)
    ensures
        r@ == section_text(*section, depth as nat),
{
    let mut out = String::new();
    if depth <= 2 {
        push_section(&mut out, section, depth);
    } else {
        push_section(&mut out, section, 2);
        proof {
            lemma_section_deep(*section, 2, depth as nat);
        }
    }
    out
}

/// Renders all sections of a document.
pub fn render_all(doc: &Document) -> (r: String)
    ensures
        r@ == document_text(*doc),
{
    let mut out = String::new();
    push_sections(&mut out, &doc.document, 0);
    out
}


/// One `\bibitem` line pair: the entry's id, then its text.
pub open spec fn bibitem_text(e: BibEntry) -> Seq<char> {
    "  \\bibitem{"@ + e.id@ + "}\n  "@ + bib_entry_text(e.kind) + "\n"@
}

/// `blocks_text` is the concatenation of the pieces of its items.
proof fn lemma_blocks_text_pieces(s: Seq<Block>, g: spec_fn(Block) -> Seq<char>)
    requires
        forall|y: Block| #[trigger] g(y) == block_text(y),
    ensures
        blocks_text(s) == concat_map(s, g),
    decreases s.len(),
{
    if s.len() > 0 {
        lemma_blocks_text_pieces(s.drop_last(), g);
    }
}

/// A section body keeps the order of its blocks: the result for two runs of items is the result
/// for the first run
/// followed by the result for the second, and the result for one item is
/// the LaTeX of that block.
pub proof fn lemma_blocks_text_in_order(a: Seq<Block>, b: Seq<Block>, x: Block)
    ensures
        blocks_text(a + b) == blocks_text(a) + blocks_text(b),
        blocks_text(seq![x]) == block_text(x),
{
    let g = |y: Block| block_text(y);
    lemma_blocks_text_pieces(a, g);
    lemma_blocks_text_pieces(b, g);
    lemma_blocks_text_pieces(a + b, g);
    lemma_blocks_text_pieces(seq![x], g);
    lemma_concat_map_append(a, b, g);
    lemma_concat_map_single(x, g);
}

/// A section body keeps the order of its blocks: the piece of the `k`-th item stands at its
/// place, between the
/// result for the items before it and the result for the items after it.
pub proof fn lemma_blocks_text_at(s: Seq<Block>, k: int)
    requires
        0 <= k < s.len(),
    ensures
        blocks_text(s) == blocks_text(s.take(k)) + block_text(s[k]) + blocks_text(s.skip(k + 1)),
{
    let g = |y: Block| block_text(y);
    lemma_blocks_text_pieces(s, g);
    lemma_blocks_text_pieces(s.take(k), g);
    lemma_blocks_text_pieces(s.skip(k + 1), g);
    lemma_concat_map_at(s, k, g);
}

/// `bibitems_text` is the concatenation of the pieces of its items.
proof fn lemma_bibitems_text_pieces(s: Seq<BibEntry>, g: spec_fn(BibEntry) -> Seq<char>)
    requires
        forall|y: BibEntry| #[trigger] g(y) == bibitem_text(y),
    ensures
        bibitems_text(s) == concat_map(s, g),
    decreases s.len(),
{
    if s.len() > 0 {
        lemma_bibitems_text_pieces(s.drop_last(), g);
    }
}

/// The bibliography keeps the order of its entries: the result for two runs of items is the
/// result for the first run
/// followed by the result for the second, and the result for one item is
/// the `\bibitem` of that entry with its text.
pub proof fn lemma_bibitems_text_in_order(a: Seq<BibEntry>, b: Seq<BibEntry>, x: BibEntry)
    ensures
        bibitems_text(a + b) == bibitems_text(a) + bibitems_text(b),
        bibitems_text(seq![x]) == bibitem_text(x),
{
    let g = |y: BibEntry| bibitem_text(y);
    lemma_bibitems_text_pieces(a, g);
    lemma_bibitems_text_pieces(b, g);
    lemma_bibitems_text_pieces(a + b, g);
    lemma_bibitems_text_pieces(seq![x], g);
    lemma_concat_map_append(a, b, g);
    lemma_concat_map_single(x, g);
}

/// The bibliography keeps the order of its entries: the piece of the `k`-th item stands at its
/// place, between the
/// result for the items before it and the result for the items after it.
pub proof fn lemma_bibitems_text_at(s: Seq<BibEntry>, k: int)
    requires
        0 <= k < s.len(),
    ensures
        bibitems_text(s) == bibitems_text(s.take(k)) + bibitem_text(s[k]) + bibitems_text(s.skip(k + 1)),
{
    let g = |y: BibEntry| bibitem_text(y);
    lemma_bibitems_text_pieces(s, g);
    lemma_bibitems_text_pieces(s.take(k), g);
    lemma_bibitems_text_pieces(s.skip(k + 1), g);
    lemma_concat_map_at(s, k, g);
}

/// `sections_text` is the concatenation of the pieces of its items.
proof fn lemma_sections_text_pieces(s: Seq<Section>, depth: nat, g: spec_fn(Section) -> Seq<char>)
    requires
        forall|y: Section| #[trigger] g(y) == section_text(y, depth),
    ensures
        sections_text(s, depth) == concat_map(s, g),
    decreases s.len(),
{
    if s.len() > 0 {
        lemma_sections_text_pieces(s.drop_last(), depth, g);
    }
}

/// Sections keep their order: the result for two runs of items is the result for the first run
/// followed by the result for the second, and the result for one item is
/// the LaTeX of that section.
pub proof fn lemma_sections_text_in_order(a: Seq<Section>, b: Seq<Section>, x: Section, depth: nat)
    ensures
        sections_text(a + b, depth) == sections_text(a, depth) + sections_text(b, depth),
        sections_text(seq![x], depth) == section_text(x, depth),
{
    let g = |y: Section| section_text(y, depth);
    lemma_sections_text_pieces(a, depth, g);
    lemma_sections_text_pieces(b, depth, g);
    lemma_sections_text_pieces(a + b, depth, g);
    lemma_sections_text_pieces(seq![x], depth, g);
    lemma_concat_map_append(a, b, g);
    lemma_concat_map_single(x, g);
}

/// Sections keep their order: the piece of the `k`-th item stands at its place, between the
/// result for the items before it and the result for the items after it.
pub proof fn lemma_sections_text_at(s: Seq<Section>, k: int, depth: nat)
    requires
        0 <= k < s.len(),
    ensures
        sections_text(s, depth) == sections_text(s.take(k), depth) + section_text(s[k], depth) + sections_text(s.skip(k + 1), depth),
{
    let g = |y: Section| section_text(y, depth);
    lemma_sections_text_pieces(s, depth, g);
    lemma_sections_text_pieces(s.take(k), depth, g);
    lemma_sections_text_pieces(s.skip(k + 1), depth, g);
    lemma_concat_map_at(s, k, g);
}

/// The bibliography keeps the order of its entries: after the header with the
/// number of entries, the `k`-th `\bibitem` is that of `entries[k]`, between
/// the items of the entries before it and of those after it.
pub proof fn lemma_bibliography_order(entries: Seq<BibEntry>, k: int)
    requires
        0 <= k < entries.len(),
    ensures
        bibliography_text(entries) == "\\begin{thebibliography}{"@ + dec(entries.len()) + "}\n"@
            + bibitems_text(entries.take(k)) + "  \\bibitem{"@ + entries[k].id@ + "}\n  "@
            + bib_entry_text(entries[k].kind) + "\n"@ + bibitems_text(entries.skip(k + 1))
            + "\\end{thebibliography}\n\n"@,
{
    lemma_bibitems_text_at(entries, k);
    assert(bibliography_text(entries) =~= "\\begin{thebibliography}{"@ + dec(entries.len())
        + "}\n"@ + bibitems_text(entries.take(k)) + "  \\bibitem{"@ + entries[k].id@ + "}\n  "@
        + bib_entry_text(entries[k].kind) + "\n"@ + bibitems_text(entries.skip(k + 1))
        + "\\end{thebibliography}\n\n"@);
}

/// A section body is rendered in document order: after the heading lines,
/// the `k`-th block's LaTeX stands between that of the blocks before it and
/// that of the blocks after it, and the subsections follow.
pub proof fn lemma_section_body_order(
    s: Section,
    depth: nat,
    body: Seq<Block>,
    subsections: Seq<Section>,
    k: int,
)
    requires
        s.kind matches SectionKind::Regular { body: b, subsections: c } && b@ == body && c@
            == subsections,
        0 <= k < body.len(),
    ensures
        section_text(s, depth) == section_head(s, depth) + section_toc(s, depth) + "\n"@
            + blocks_text(body.take(k)) + block_text(body[k]) + blocks_text(body.skip(k + 1))
            + sections_text(subsections, depth + 1),
{
    lemma_blocks_text_at(body, k);
    assert(section_text(s, depth) =~= section_head(s, depth) + section_toc(s, depth) + "\n"@
        + blocks_text(body.take(k)) + block_text(body[k]) + blocks_text(body.skip(k + 1))
        + sections_text(subsections, depth + 1));
}

} // verus!
