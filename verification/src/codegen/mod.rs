//! LaTeX generation for a whole document.
pub mod blocks;
pub mod preamble;
pub mod sections;
pub mod titlepage;

use vstd::prelude::*;

use crate::ir::types::{Block, Document, Section, SectionKind};
use crate::text::{trim, trim_ws};

verus! {

/// Whether a block is an algorithm.
pub open spec fn is_algorithm(b: Block) -> bool {
    b is Algorithm
}

/// Whether a section, or one of its subsections at any depth, has an
/// algorithm among its body blocks.
pub open spec fn section_uses_algorithm(s: Section) -> bool
    decreases s, 1int,
{
    match s.kind {
        SectionKind::Regular { body, subsections } => (exists|i: int|
            0 <= i < body.len() && is_algorithm(#[trigger] body@[i])) || sections_use_algorithm(
            subsections@,
        ),
        SectionKind::Bibliography { .. } => false,
    }
}

/// Whether one of the sections uses an algorithm.
pub open spec fn sections_use_algorithm(ss: Seq<Section>) -> bool
    decreases ss, 0int,
{
    if ss.len() == 0 {
        false
    } else {
        sections_use_algorithm(ss.drop_last()) || section_uses_algorithm(ss.last())
    }
}

/// The LaTeX for the abstract.
pub open spec fn abstract_text(text: Seq<char>) -> Seq<char> {
    "\\section*{Реферат}\n\\addcontentsline{toc}{section}{Реферат}\n\n"@ + trim_ws(text)
        + "\n\\clearpage\n\n"@
}

/// The LaTeX for a whole document.
pub open spec fn generated_text(doc: Document) -> Seq<char> {
    preamble::preamble_text(doc.style, sections_use_algorithm(doc.document@))
        + "\n\\begin{document}\n\n"@ + titlepage::titlepage_text(doc.meta) + (match doc.meta.abstract_ {
        Some(t) => abstract_text(t@),
        None => Seq::empty(),
    }) + "\\tableofcontents\n\\clearpage\n\n"@ + sections::document_text(doc)
        + "\n\\end{document}\n"@
}

/// Renders the abstract page.
pub fn render_abstract(text: &str) -> (r: String)
    ensures
        r@ == abstract_text(text@),
{
    let mut out = String::new();
    out.append("\\section*{Реферат}\n\\addcontentsline{toc}{section}{Реферат}\n\n");
    out.append(trim(text).as_str());
    out.append("\n\\clearpage\n\n");
    out
}

/// Whether a block is an algorithm.
pub fn block_has_algorithm(block: &Block) -> (r: bool)
    ensures
        r == is_algorithm(*block),
{
    match block {
        Block::Algorithm { .. } => true,
        _ => false,
    }
}

/// Whether a section or one of its subsections has an algorithm block.
pub fn section_has_algorithm(section: &Section) -> (r: bool)
    ensures
        r == section_uses_algorithm(*section),
    decreases section, 1int,
{
    match &section.kind {
        SectionKind::Regular { body, subsections } => {
            let n = body.len();
            let mut i: usize = 0;
            #[verifier::loop_isolation(false)]
            while i < n
                invariant
                    n == body.len(),
                    i <= n,
                    forall|k: int| 0 <= k < i ==> !is_algorithm(#[trigger] body@[k]),
                decreases n - i,
            {
                if block_has_algorithm(&body[i]) {
                    assert(is_algorithm(body@[i as int]));
                    return true;
                }
                i = i + 1;
            }
            any_section_has_algorithm(subsections)
        },
        SectionKind::Bibliography { .. } => false,
    }
}

/// Whether one of the sections has an algorithm block.
fn any_section_has_algorithm(ss: &Vec<Section>) -> (r: bool)
    ensures
        r == sections_use_algorithm(ss@),
    decreases ss, 0int,
{
    let n = ss.len();
    let mut i: usize = 0;
    while i < n
        invariant
            n == ss.len(),
            i <= n,
            !sections_use_algorithm(ss@.take(i as int)),
        decreases n - i,
    {
        assert(ss@.take(i + 1).drop_last() =~= ss@.take(i as int));
        if section_has_algorithm(&ss[i]) {
            proof {
                lemma_uses_algorithm_prefix(ss@, i as int + 1);
            }
            return true;
        }
        i = i + 1;
    }
    assert(ss@.take(n as int) =~= ss@);
    false
}

/// A prefix that uses an algorithm makes the whole list use one.
proof fn lemma_uses_algorithm_prefix(ss: Seq<Section>, k: int)
    requires
        0 <= k <= ss.len(),
        sections_use_algorithm(ss.take(k)),
    ensures
        sections_use_algorithm(ss),
    decreases ss.len() - k,
{
    if k < ss.len() {
        assert(ss.take(k + 1).drop_last() =~= ss.take(k));
        lemma_uses_algorithm_prefix(ss, k + 1);
    } else {
        assert(ss.take(k) =~= ss);
    }
}

/// Whether the document has an algorithm block anywhere in its sections.
pub fn has_algorithm(doc: &Document) -> (r: bool)
    ensures
        r == sections_use_algorithm(doc.document@),
{
    any_section_has_algorithm(&doc.document)
}

/// Generates the whole LaTeX source of a document.
pub fn generate(doc: &Document) -> (r: String)
    ensures
        r@ == generated_text(*doc),
{
    let mut out = String::new();
    out.append(preamble::render(doc, has_algorithm(doc)).as_str());
    out.append("\n\\begin{document}\n\n");
    out.append(titlepage::render(doc).as_str());
    let ghost mid = out@;
    if let Some(text) = &doc.meta.abstract_ {
        out.append(render_abstract(text.as_str()).as_str());
    }
    assert(out@ =~= mid + match doc.meta.abstract_ {
        Some(t) => abstract_text(t@),
        None => Seq::empty(),
    });
    out.append("\\tableofcontents\n\\clearpage\n\n");
    out.append(sections::render_all(doc).as_str());
    out.append("\n\\end{document}\n");
    assert(out@ =~= generated_text(*doc));
    out
}


/// The sections use an algorithm exactly when one of them, at any position,
/// does.
pub proof fn lemma_sections_algorithm_any(ss: Seq<Section>)
    ensures
        sections_use_algorithm(ss) <==> exists|j: int|
            0 <= j < ss.len() && #[trigger] section_uses_algorithm(ss[j]),
    decreases ss.len(),
{
    if ss.len() > 0 {
        lemma_sections_algorithm_any(ss.drop_last());
        if sections_use_algorithm(ss) {
            if sections_use_algorithm(ss.drop_last()) {
                let j = choose|j: int|
                    0 <= j < ss.drop_last().len() && #[trigger] section_uses_algorithm(
                        ss.drop_last()[j],
                    );
                assert(ss[j] == ss.drop_last()[j]);
            } else {
                assert(section_uses_algorithm(ss[ss.len() - 1]));
            }
        }
        if exists|j: int| 0 <= j < ss.len() && #[trigger] section_uses_algorithm(ss[j]) {
            let j = choose|j: int| 0 <= j < ss.len() && #[trigger] section_uses_algorithm(ss[j]);
            if j < ss.len() - 1 {
                assert(ss.drop_last()[j] == ss[j]);
                assert(section_uses_algorithm(ss.drop_last()[j]));
            }
        }
    }
}

/// A section uses an algorithm exactly when one of its body blocks, at any
/// position, is an algorithm, or one of its subsections, at any position,
/// uses one.
pub proof fn lemma_section_algorithm_anywhere(s: Section, body: Seq<Block>, subsections: Seq<Section>)
    requires
        s.kind matches SectionKind::Regular { body: b, subsections: c } && b@ == body && c@
            == subsections,
    ensures
        section_uses_algorithm(s) <==> (exists|i: int| 0 <= i < body.len() && #[trigger] body[i] is Algorithm)
            || (exists|j: int| 0 <= j < subsections.len() && #[trigger] section_uses_algorithm(subsections[j])),
{
    lemma_sections_algorithm_any(subsections);
    if exists|i: int| 0 <= i < body.len() && #[trigger] body[i] is Algorithm {
        let i = choose|i: int| 0 <= i < body.len() && #[trigger] body[i] is Algorithm;
        assert(is_algorithm(body[i]));
    }
}

/// A document one of whose sections uses an algorithm gets a preamble that
/// loads the algorithm packages.
pub proof fn lemma_algorithm_loads_packages(doc: Document, j: int)
    requires
        0 <= j < doc.document.len(),
        section_uses_algorithm(doc.document@[j]),
    ensures
        generated_text(doc).take(preamble::preamble_text(doc.style, true).len() as int)
            == preamble::preamble_text(doc.style, true),
        ({
            let p = preamble::preamble_text(doc.style, true);
            let k = (preamble::documentclass_text(doc.style) + preamble::geometry_text(doc.style)
                + preamble::base_packages()).len();
            p.subrange(k as int, (k + "\\usepackage{algorithm}\n\\usepackage{algpseudocode}\n"@.len()) as int)
                == "\\usepackage{algorithm}\n\\usepackage{algpseudocode}\n"@
        }),
{
    lemma_sections_algorithm_any(doc.document@);
    assert(section_uses_algorithm(doc.document@[j]));
    assert(sections_use_algorithm(doc.document@));
    let p = preamble::preamble_text(doc.style, true);
    assert(generated_text(doc).take(p.len() as int) =~= p);
    let pre = preamble::documentclass_text(doc.style) + preamble::geometry_text(doc.style)
        + preamble::base_packages();
    let alg = "\\usepackage{algorithm}\n\\usepackage{algpseudocode}\n"@;
    assert(p =~= pre + alg + (p.skip((pre.len() + alg.len()) as int)));
    assert(p.subrange(pre.len() as int, (pre.len() + alg.len()) as int) =~= alg);
}

} // verus!
