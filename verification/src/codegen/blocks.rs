//! Rendering of body blocks and of the inline markup in text.
//!
//! Inline markup: `{{ref:ID}}`, `{{pageref:ID}}`, `{{cite:ID}}`, `{{url:U}}`,
//! `{{bold:T}}`, `{{italic:T}}` and `{{code:T}}` become the matching LaTeX
//! commands (the last three with their text rendered again); any other
//! `{{...}}` is kept as written, and an unclosed `{{` keeps the rest of the
//! text as it is.
use vstd::prelude::*;

use crate::ir::types::{AlgoStep, Block, ListItem, ListingSource, SubFigure};
use crate::text::{
    concat_map, dec, has_prefix, join, lemma_concat_map_append, lemma_concat_map_at,
    lemma_concat_map_single, lemma_join_push, push_char, push_dec, push_range, starts_with,
    to_chars, trim_end, trim_end_ws,
};

verus! {

// ───────────────────────────── inline markup ─────────────────────────────

/// The first position `i >= from` with `s[i] == '}'` and `s[i + 1] == '}'`,
/// or -1 when there is none.
pub open spec fn find_close(s: Seq<char>, from: int) -> int
    decreases s.len() - from,
{
    if from < 0 || from + 1 >= s.len() {
        -1
    } else if s[from] == '}' && s[from + 1] == '}' {
        from
    } else {
        find_close(s, from + 1)
    }
}

/// A found closing pair lies inside the text.
pub proof fn lemma_find_close_range(s: Seq<char>, from: int)
    ensures
        find_close(s, from) == -1 || (0 <= from <= find_close(s, from) && find_close(s, from) + 1
            < s.len()),
    decreases s.len() - from,
{
    if !(from < 0 || from + 1 >= s.len()) && !(s[from] == '}' && s[from + 1] == '}') {
        lemma_find_close_range(s, from + 1);
    }
}

/// The LaTeX for a text with inline markup.
pub open spec fn inline_text(s: Seq<char>) -> Seq<char>
    decreases s.len(),
{
    if s.len() == 0 {
        Seq::empty()
    } else if s.len() >= 2 && s[0] == '{' && s[1] == '{' {
        let body = s.skip(2);
        let k = find_close(body, 0);
        if k < 0 {
            "{{"@ + body
        } else {
            proof {
                lemma_find_close_range(body, 0);
            }
            marker_text(body.take(k)) + inline_text(body.skip(k + 2))
        }
    } else {
        seq![s[0]] + inline_text(s.drop_first())
    }
}

/// The LaTeX for the inside `m` of a closed `{{m}}`.
pub open spec fn marker_text(m: Seq<char>) -> Seq<char>
    decreases m.len(),
{
    if starts_with(m, "ref:"@) {
        "\\ref{"@ + m.skip(4) + "}"@
    } else if starts_with(m, "pageref:"@) {
        "\\pageref{"@ + m.skip(8) + "}"@
    } else if starts_with(m, "cite:"@) {
        "\\cite{"@ + m.skip(5) + "}"@
    } else if starts_with(m, "url:"@) {
        "\\url{"@ + m.skip(4) + "}"@
    } else if starts_with(m, "bold:"@) {
        proof {
            reveal_strlit("bold:");
        }
        "\\textbf{"@ + inline_text(m.skip(5)) + "}"@
    } else if starts_with(m, "italic:"@) {
        proof {
            reveal_strlit("italic:");
        }
        "\\textit{"@ + inline_text(m.skip(7)) + "}"@
    } else if starts_with(m, "code:"@) {
        proof {
            reveal_strlit("code:");
        }
        "\\texttt{"@ + inline_text(m.skip(5)) + "}"@
    } else {
        "{{"@ + m + "}}"@
    }
}

/// Whether `s` has no two neighbouring `{`, so holds no inline markup.
pub open spec fn markup_free(s: Seq<char>) -> bool {
    forall|i: int| 0 <= i < s.len() - 1 ==> !(#[trigger] s[i] == '{' && s[i + 1] == '{')
}

/// Text without markup is rendered as it is.
pub proof fn lemma_plain_text_unchanged(s: Seq<char>)
    requires
        markup_free(s),
    ensures
        inline_text(s) == s,
    decreases s.len(),
{
    if s.len() > 0 {
        if s.len() >= 2 {
            assert(!(s[0] == '{' && s[1] == '{'));
        }
        let t = s.drop_first();
        assert forall|i: int| 0 <= i < t.len() - 1 implies !(#[trigger] t[i] == '{' && t[i + 1]
            == '{') by {
            assert(t[i] == s[i + 1] && t[i + 1] == s[i + 2]);
        }
        lemma_plain_text_unchanged(t);
        assert(seq![s[0]] + t =~= s);
    }
}

/// Appends the LaTeX for `v[lo..hi]`, read as text with inline markup.
fn render_inline_range(v: &Vec<char>, lo: usize, hi: usize, out: &mut String)
    requires
        lo <= hi <= v.len(),
    ensures
        final(out)@ == old(out)@ + inline_text(v@.subrange(lo as int, hi as int)),
    decreases hi - lo, 1int,
{
    let ghost whole = v@.subrange(lo as int, hi as int);
    let mut i = lo;
    while i < hi
        invariant
            lo <= i <= hi <= v.len(),
            whole == v@.subrange(lo as int, hi as int),
            out@ + inline_text(v@.subrange(i as int, hi as int)) == old(out)@ + inline_text(whole),
        decreases hi - i,
    {
        let ghost s = v@.subrange(i as int, hi as int);
        let ghost before = out@;
        if i + 1 < hi && v[i] == '{' && v[i + 1] == '{' {
            let ghost body = s.skip(2);
            assert(body =~= v@.subrange(i + 2, hi as int));
            let mut j = i + 2;
            while j < hi - 1 && !(v[j] == '}' && v[j + 1] == '}')
                invariant
                    lo <= i,
                    i + 2 <= j <= hi <= v.len(),
                    body == v@.subrange(i + 2, hi as int),
                    find_close(body, j - (i + 2)) == find_close(body, 0),
                decreases hi - j,
            {
                j = j + 1;
            }
            if j < hi - 1 {
                let ghost k = j - (i + 2);
                assert(find_close(body, k) == k);
                assert(body.take(k) =~= v@.subrange(i + 2, j as int));
                assert(body.skip(k + 2) =~= v@.subrange(j + 2, hi as int));
                render_marker_range(v, i + 2, j, out);
                i = j + 2;
                assert(inline_text(s) == marker_text(body.take(k)) + inline_text(body.skip(k + 2)));
                assert(out@ + inline_text(v@.subrange(i as int, hi as int)) =~= before
                    + inline_text(s));
            } else {
                assert(find_close(body, j - (i + 2)) == -1);
                out.append("{{");
                push_range(out, v, i + 2, hi);
                i = hi;
                assert(inline_text(s) == "{{"@ + body);
                assert(v@.subrange(i as int, hi as int) =~= Seq::<char>::empty());
                assert(out@ + inline_text(v@.subrange(i as int, hi as int)) =~= before
                    + inline_text(s));
            }
        } else {
            push_char(out, v[i]);
            i = i + 1;
            assert(s.drop_first() =~= v@.subrange(i as int, hi as int));
            assert(inline_text(s) == seq![s[0]] + inline_text(s.drop_first()));
            assert(out@ + inline_text(v@.subrange(i as int, hi as int)) =~= before + inline_text(
                s,
            ));
        }
    }
    assert(v@.subrange(i as int, hi as int) =~= Seq::<char>::empty());
    assert(out@ =~= old(out)@ + inline_text(whole));
}

/// Appends the LaTeX for the marker `v[lo..hi]` (the inside of `{{...}}`).
fn render_marker_range(v: &Vec<char>, lo: usize, hi: usize, out: &mut String)
    requires
        lo <= hi <= v.len(),
    ensures
        final(out)@ == old(out)@ + marker_text(v@.subrange(lo as int, hi as int)),
    decreases hi - lo, 0int,
{
    let ghost m = v@.subrange(lo as int, hi as int);
    proof {
        reveal_strlit("ref:");
        reveal_strlit("pageref:");
        reveal_strlit("cite:");
        reveal_strlit("url:");
        reveal_strlit("bold:");
        reveal_strlit("italic:");
        reveal_strlit("code:");
    }
    if has_prefix(v, lo, hi, "ref:") {
        assert(m.skip(4) =~= v@.subrange(lo + 4, hi as int));
        out.append("\\ref{");
        push_range(out, v, lo + 4, hi);
        out.append("}");
    } else if has_prefix(v, lo, hi, "pageref:") {
        assert(m.skip(8) =~= v@.subrange(lo + 8, hi as int));
        out.append("\\pageref{");
        push_range(out, v, lo + 8, hi);
        out.append("}");
    } else if has_prefix(v, lo, hi, "cite:") {
        assert(m.skip(5) =~= v@.subrange(lo + 5, hi as int));
        out.append("\\cite{");
        push_range(out, v, lo + 5, hi);
        out.append("}");
    } else if has_prefix(v, lo, hi, "url:") {
        assert(m.skip(4) =~= v@.subrange(lo + 4, hi as int));
        out.append("\\url{");
        push_range(out, v, lo + 4, hi);
        out.append("}");
    } else if has_prefix(v, lo, hi, "bold:") {
        assert(m.skip(5) =~= v@.subrange(lo + 5, hi as int));
        out.append("\\textbf{");
        render_inline_range(v, lo + 5, hi, out);
        out.append("}");
    } else if has_prefix(v, lo, hi, "italic:") {
        assert(m.skip(7) =~= v@.subrange(lo + 7, hi as int));
        out.append("\\textit{");
        render_inline_range(v, lo + 7, hi, out);
        out.append("}");
    } else if has_prefix(v, lo, hi, "code:") {
        assert(m.skip(5) =~= v@.subrange(lo + 5, hi as int));
        out.append("\\texttt{");
        render_inline_range(v, lo + 5, hi, out);
        out.append("}");
    } else {
        out.append("{{");
        push_range(out, v, lo, hi);
        out.append("}}");
    }
}

/// Renders text with inline markup as LaTeX.
pub fn process_inline(text: &str) -> (r: String)
    ensures
        r@ == inline_text(text@),
{
    let v = to_chars(text);
    let mut out = String::new();
    render_inline_range(&v, 0, v.len(), &mut out);
    assert(v@.subrange(0, v.len() as int) =~= text@);
    assert(out@ =~= inline_text(text@));
    out
}

/// Renders the inside of a closed `{{...}}` marker as LaTeX.
pub fn render_marker(marker: &str) -> (r: String)
    ensures
        r@ == marker_text(marker@),
{
    let v = to_chars(marker);
    let mut out = String::new();
    render_marker_range(&v, 0, v.len(), &mut out);
    assert(v@.subrange(0, v.len() as int) =~= marker@);
    assert(out@ =~= marker_text(marker@));
    out
}


/// Appends the LaTeX for a text with inline markup.
pub fn push_inline(out: &mut String, text: &str)
    ensures
        final(out)@ == old(out)@ + inline_text(text@),
{
    let r = process_inline(text);
    out.append(r.as_str());
}

// ───────────────────────────── blocks ─────────────────────────────

/// The text of an optional string, or `default` when it is absent.
pub open spec fn text_or(o: Option<String>, default: Seq<char>) -> Seq<char> {
    match o {
        Some(s) => s@,
        None => default,
    }
}

/// The rendered texts of a list of strings.
pub open spec fn inline_all(v: Seq<String>) -> Seq<Seq<char>> {
    Seq::new(v.len(), |i: int| inline_text(v[i]@))
}

/// The column specification of a table with `n` columns: `l | l | ... | l`.
pub open spec fn col_spec(n: nat) -> Seq<char> {
    join(Seq::new(n, |i: int| "l"@), " | "@)
}

/// The table rows, each a line of cells separated by ` & ` and ended by `\\`.
pub open spec fn rows_text(rows: Seq<Vec<String>>) -> Seq<char>
    decreases rows.len(),
{
    if rows.len() == 0 {
        Seq::empty()
    } else {
        rows_text(rows.drop_last()) + join(inline_all(rows.last()@), " & "@) + " \\\\\n"@
    }
}

/// The LaTeX for a table.
pub open spec fn table_text(
    id: Seq<char>,
    caption: Seq<char>,
    columns: Seq<String>,
    rows: Seq<Vec<String>>,
) -> Seq<char> {
    "\\begin{table}[h]\n\\centering\n\\caption{"@ + inline_text(caption) + "}\\label{"@ + id
        + "}\n\\begin{tabular}{"@ + col_spec(columns.len()) + "}\n\\hline\n"@ + join(
        inline_all(columns),
        " & "@,
    ) + " \\\\\n\\hline\n"@ + rows_text(rows) + "\\hline\n\\end{tabular}\n\\end{table}\n\n"@
}

/// The indentation of an algorithm line at nesting `depth`: `depth + 1`
/// times two spaces.
pub open spec fn indent(depth: nat) -> Seq<char>
    decreases depth,
{
    if depth == 0 {
        "  "@
    } else {
        indent((depth - 1) as nat) + "  "@
    }
}

/// The LaTeX lines for algorithm steps at nesting `depth`.
pub open spec fn steps_text(steps: Seq<AlgoStep>, depth: nat) -> Seq<char>
    decreases steps, 0int,
{
    if steps.len() == 0 {
        Seq::empty()
    } else {
        steps_text(steps.drop_last(), depth) + step_text(steps.last(), depth)
    }
}

/// The LaTeX lines for one algorithm step at nesting `depth`.
pub open spec fn step_text(step: AlgoStep, depth: nat) -> Seq<char>
    decreases step, 1int,
{
    let ind = indent(depth);
    match step {
        AlgoStep::Statement { text } => ind + "\\State "@ + inline_text(text@) + "\n"@,
        AlgoStep::Require { text } => ind + "\\Require "@ + inline_text(text@) + "\n"@,
        AlgoStep::Ensure { text } => ind + "\\Ensure "@ + inline_text(text@) + "\n"@,
        AlgoStep::Return { text } => ind + "\\State \\Return "@ + inline_text(text@) + "\n"@,
        AlgoStep::Comment { text } => ind + "\\Comment{"@ + inline_text(text@) + "}\n"@,
        AlgoStep::If { cond, body, else_ } => ind + "\\If{$"@ + cond@ + "$}\n"@ + steps_text(
            body@,
            depth + 1,
        ) + (if else_.len() > 0 {
            ind + "\\Else\n"@ + steps_text(else_@, depth + 1)
        } else {
            Seq::empty()
        }) + ind + "\\EndIf\n"@,
        AlgoStep::For { var, body } => ind + "\\For{$"@ + var@ + "$}\n"@ + steps_text(
            body@,
            depth + 1,
        ) + ind + "\\EndFor\n"@,
        AlgoStep::While { cond, body } => ind + "\\While{$"@ + cond@ + "$}\n"@ + steps_text(
            body@,
            depth + 1,
        ) + ind + "\\EndWhile\n"@,
    }
}

/// The environment of an algorithm: numbered or not.
pub open spec fn algorithm_env(numbered: bool) -> Seq<char> {
    if numbered {
        "algorithm"@
    } else {
        "algorithm*"@
    }
}

/// The LaTeX for an algorithm.
pub open spec fn algorithm_text(
    id: Seq<char>,
    caption: Seq<char>,
    numbered: bool,
    steps: Seq<AlgoStep>,
) -> Seq<char> {
    let env = algorithm_env(numbered);
    "\\begin{"@ + env + "}\n\\caption{"@ + inline_text(caption) + "}\\label{"@ + id
        + "}\n\\begin{algorithmic}[1]\n"@ + steps_text(steps, 0) + "\\end{algorithmic}\n"@
        + "\\end{"@ + env + "}\n\n"@
}

/// The LaTeX for one picture of a figure group.
pub open spec fn subfigure_text(f: SubFigure) -> Seq<char> {
    "\\begin{subfigure}[b]{"@ + f.width@
        + "\\linewidth}\n\\includegraphics[width=\\linewidth]{"@ + f.path@ + "}\n\\caption{"@
        + inline_text(f.subcaption@) + "}\n\\end{subfigure}\n\\hfill\n"@
}

/// The LaTeX for the pictures of a figure group, in order.
pub open spec fn subfigures_text(figs: Seq<SubFigure>) -> Seq<char>
    decreases figs.len(),
{
    if figs.len() == 0 {
        Seq::empty()
    } else {
        subfigures_text(figs.drop_last()) + subfigure_text(figs.last())
    }
}

/// The list environment: numbered or not.
pub open spec fn list_env(ordered: bool) -> Seq<char> {
    if ordered {
        "enumerate"@
    } else {
        "itemize"@
    }
}

/// The line-range options of a listing read from a file.
pub open spec fn range_opts(range: Option<(usize, usize)>) -> Seq<char> {
    match range {
        Some((a, b)) => ", firstline="@ + dec(a as nat) + ", lastline="@ + dec(b as nat),
        None => Seq::empty(),
    }
}

/// The LaTeX for a code listing.
pub open spec fn listing_text(
    id: Seq<char>,
    source: ListingSource,
    language: Seq<char>,
    caption: Seq<char>,
    range: Option<(usize, usize)>,
) -> Seq<char> {
    match source {
        ListingSource::File { path } => "\\lstinputlisting[language="@ + language
            + ", caption={"@ + inline_text(caption) + "}, label="@ + id + range_opts(range) + "]{"@
            + path@ + "}\n\n"@,
        ListingSource::Inline { content } => "\\begin{lstlisting}[language="@ + language
            + ", caption={"@ + inline_text(caption) + "}, label="@ + id + "]\n"@ + trim_end_ws(
            content@,
        ) + "\n\\end{lstlisting}\n\n"@,
    }
}

/// The LaTeX for one block.
pub open spec fn block_text(b: Block) -> Seq<char>
    decreases b, 2int,
{
    match b {
        Block::Paragraph { text } => inline_text(text@) + "\n\n"@,
        Block::Formula { id, content } => match id {
            Some(id) => "\\begin{equation}\\label{"@ + id@ + "}\n"@ + content@
                + "\n\\end{equation}\n\n"@,
            None => "\\[\n"@ + content@ + "\n\\]\n\n"@,
        },
        Block::Figure { id, path, caption, width } => "\\begin{figure}[h]\n\\centering\n\\includegraphics[width="@
            + width@ + "\\linewidth]{"@ + path@ + "}\n\\caption{"@ + inline_text(caption@)
            + "}\\label{"@ + id@ + "}\n\\end{figure}\n\n"@,
        Block::Listing { id, source, language, caption, range } => listing_text(
            id@,
            source,
            language@,
            caption@,
            range,
        ),
        Block::Table { id, caption, columns, rows } => table_text(id@, caption@, columns@, rows@),
        Block::List { ordered, items } => "\\begin{"@ + list_env(ordered) + "}\n"@ + items_text(
            items@,
        ) + "\\end{"@ + list_env(ordered) + "}\n\n"@,
        Block::FigureGroup { id, caption, layout, figures } => "\\begin{figure}[h]\n\\centering\n"@
            + subfigures_text(figures@) + "\\caption{"@ + inline_text(caption@) + "}\\label{"@ + id@
            + "}\n\\end{figure}\n\n"@,
        Block::Algorithm { id, caption, numbered, steps } => algorithm_text(
            id@,
            caption@,
            numbered,
            steps@,
        ),
        Block::Note { text, title } =>
            "\\begin{tcolorbox}[colback=blue!5!white, colframe=blue!50!black, title="@ + text_or(
                title,
                "Примечание"@,
            ) + "]\n"@ + inline_text(text@) + "\n\\end{tcolorbox}\n\n"@,
        Block::Warning { text, title } =>
            "\\begin{tcolorbox}[colback=red!5!white, colframe=red!60!black, title="@ + text_or(
                title,
                "Внимание"@,
            ) + "]\n"@ + inline_text(text@) + "\n\\end{tcolorbox}\n\n"@,
        Block::PageBreak => "\\clearpage\n\n"@,
        Block::RawLatex { content } => content@ + "\n\n"@,
    }
}

/// The LaTeX for the items of a list, in order.
pub open spec fn items_text(items: Seq<ListItem>) -> Seq<char>
    decreases items, 0int,
{
    if items.len() == 0 {
        Seq::empty()
    } else {
        items_text(items.drop_last()) + item_text(items.last())
    }
}

/// The LaTeX for one item of a list.
pub open spec fn item_text(item: ListItem) -> Seq<char>
    decreases item, 1int,
{
    match item {
        ListItem::Text(t) => "  \\item "@ + inline_text(t@) + "\n"@,
        ListItem::Nested(b) => "  \\item\n"@ + block_text(*b),
    }
}


// ───────────────────────────── block rendering ─────────────────────────────

/// Appends each string rendered as inline text, separated by `sep`.
fn push_inline_join(out: &mut String, list: &Vec<String>, sep: &str)
    ensures
        final(out)@ == old(out)@ + join(inline_all(list@), sep@),
{
    let n = list.len();
    for i in 0..n
        invariant
            n == list.len(),
            out@ == old(out)@ + join(inline_all(list@).take(i as int), sep@),
    {
        proof {
            lemma_join_push(inline_all(list@).take(i as int), sep@, inline_text(list@[i as int]@));
            assert(inline_all(list@).take(i as int).push(inline_text(list@[i as int]@))
                =~= inline_all(list@).take(i + 1));
        }
        let ghost before = out@;
        if i > 0 {
            out.append(sep);
        }
        push_inline(out, list[i].as_str());
        proof {
            if i > 0 {
                assert(out@ =~= old(out)@ + (join(inline_all(list@).take(i as int), sep@) + sep@
                    + inline_text(list@[i as int]@)));
            } else {
                assert(inline_all(list@).take(0) =~= Seq::<Seq<char>>::empty());
            }
        }
    }
    assert(inline_all(list@).take(n as int) =~= inline_all(list@));
}

/// Appends the column specification of a table with `n` columns.
fn push_col_spec(out: &mut String, n: usize)
    ensures
        final(out)@ == old(out)@ + col_spec(n as nat),
{
    let ghost items = Seq::new(n as nat, |i: int| "l"@);
    for i in 0..n
        invariant
            items == Seq::new(n as nat, |i: int| "l"@),
            out@ == old(out)@ + join(items.take(i as int), " | "@),
    {
        proof {
            lemma_join_push(items.take(i as int), " | "@, "l"@);
            assert(items.take(i as int).push("l"@) =~= items.take(i + 1));
        }
        if i > 0 {
            out.append(" | ");
        }
        out.append("l");
        proof {
            if i == 0 {
                assert(items.take(0) =~= Seq::<Seq<char>>::empty());
            }
        }
    }
    assert(items.take(n as int) =~= items);
}

/// Renders a table.
pub fn render_table(id: &str, caption: &str, columns: &Vec<String>, rows: &Vec<Vec<String>>) -> (r:
    String)
    ensures
        r@ == table_text(id@, caption@, columns@, rows@),
{
    let mut out = String::new();
    out.append("\\begin{table}[h]\n\\centering\n\\caption{");
    push_inline(&mut out, caption);
    out.append("}\\label{");
    out.append(id);
    out.append("}\n\\begin{tabular}{");
    push_col_spec(&mut out, columns.len());
    out.append("}\n\\hline\n");
    push_inline_join(&mut out, columns, " & ");
    out.append(" \\\\\n\\hline\n");
    let ghost head = out@;
    let n = rows.len();
    for i in 0..n
        invariant
            n == rows.len(),
            out@ == head + rows_text(rows@.take(i as int)),
    {
        assert(rows@.take(i + 1).drop_last() =~= rows@.take(i as int));
        push_inline_join(&mut out, &rows[i], " & ");
        out.append(" \\\\\n");
    }
    assert(rows@.take(n as int) =~= rows@);
    out.append("\\hline\n\\end{tabular}\n\\end{table}\n\n");
    out
}

/// Appends the lines for algorithm steps at nesting `depth`, whose
/// indentation is `ind`.
fn push_steps(steps: &Vec<AlgoStep>, depth: Ghost<nat>, ind: &String, out: &mut String)
    requires
        ind@ == indent(depth@),
    ensures
        final(out)@ == old(out)@ + steps_text(steps@, depth@),
    decreases steps, 0int,
{
    let n = steps.len();
    let mut deeper = ind.clone();
    deeper.append("  ");
    assert(deeper@ == indent(depth@ + 1));
    for i in 0..n
        invariant
            n == steps.len(),
            ind@ == indent(depth@),
            deeper@ == indent(depth@ + 1),
            out@ == old(out)@ + steps_text(steps@.take(i as int), depth@),
    {
        assert(steps@.take(i + 1).drop_last() =~= steps@.take(i as int));
        push_step(&steps[i], depth, ind, &deeper, out);
    }
    assert(steps@.take(n as int) =~= steps@);
}

/// Appends the lines for one algorithm step at nesting `depth`; `ind` and
/// `deeper` are the indentations at `depth` and `depth + 1`.
fn push_step(step: &AlgoStep, depth: Ghost<nat>, ind: &String, deeper: &String, out: &mut String)
    requires
        ind@ == indent(depth@),
        deeper@ == indent(depth@ + 1),
    ensures
        final(out)@ == old(out)@ + step_text(*step, depth@),
    decreases step, 1int,
{
    let ghost before = out@;
    match step {
        AlgoStep::Statement { text } => {
            out.append(ind.as_str());
            out.append("\\State ");
            push_inline(out, text.as_str());
            out.append("\n");
        },
        AlgoStep::Require { text } => {
            out.append(ind.as_str());
            out.append("\\Require ");
            push_inline(out, text.as_str());
            out.append("\n");
        },
        AlgoStep::Ensure { text } => {
            out.append(ind.as_str());
            out.append("\\Ensure ");
            push_inline(out, text.as_str());
            out.append("\n");
        },
        AlgoStep::Return { text } => {
            out.append(ind.as_str());
            out.append("\\State \\Return ");
            push_inline(out, text.as_str());
            out.append("\n");
        },
        AlgoStep::Comment { text } => {
            out.append(ind.as_str());
            out.append("\\Comment{");
            push_inline(out, text.as_str());
            out.append("}\n");
        },
        AlgoStep::If { cond, body, else_ } => {
            out.append(ind.as_str());
            out.append("\\If{$");
            out.append(cond.as_str());
            out.append("$}\n");
            push_steps(body, Ghost(depth@ + 1), deeper, out);
            let ghost mid = out@;
            if else_.len() > 0 {
                out.append(ind.as_str());
                out.append("\\Else\n");
                push_steps(else_, Ghost(depth@ + 1), deeper, out);
            }
            assert(out@ =~= mid + (if else_.len() > 0 {
                ind@ + "\\Else\n"@ + steps_text(else_@, depth@ + 1)
            } else {
                Seq::empty()
            }));
            out.append(ind.as_str());
            out.append("\\EndIf\n");
        },
        AlgoStep::For { var, body } => {
            out.append(ind.as_str());
            out.append("\\For{$");
            out.append(var.as_str());
            out.append("$}\n");
            push_steps(body, Ghost(depth@ + 1), deeper, out);
            out.append(ind.as_str());
            out.append("\\EndFor\n");
        },
        AlgoStep::While { cond, body } => {
            out.append(ind.as_str());
            out.append("\\While{$");
            out.append(cond.as_str());
            out.append("$}\n");
            push_steps(body, Ghost(depth@ + 1), deeper, out);
            out.append(ind.as_str());
            out.append("\\EndWhile\n");
        },
    }
    assert(out@ =~= before + step_text(*step, depth@));
}

/// The indentation for nesting `depth`.
fn indent_string(depth: usize) -> (r: String)
    requires
        depth < usize::MAX,
    ensures
        r@ == indent(depth as nat),
{
    let mut r = String::new();
    r.append("  ");
    let mut k: usize = 0;
    while k < depth
        invariant
            k <= depth,
            r@ == indent(k as nat),
        decreases depth - k,
    {
        r.append("  ");
        k = k + 1;
    }
    r
}

/// Appends the lines for algorithm steps at nesting `depth`.
pub fn render_algo_steps(steps: &Vec<AlgoStep>, depth: usize, out: &mut String)
    requires
        depth < usize::MAX,
    ensures
        final(out)@ == old(out)@ + steps_text(steps@, depth as nat),
{
    let ind = indent_string(depth);
    push_steps(steps, Ghost(depth as nat), &ind, out);
}

/// Renders an algorithm.
pub fn render_algorithm(id: &str, caption: &str, numbered: bool, steps: &Vec<AlgoStep>) -> (r:
    String)
    ensures
        r@ == algorithm_text(id@, caption@, numbered, steps@),
{
    let env = if numbered {
        "algorithm"
    } else {
        "algorithm*"
    };
    let mut out = String::new();
    out.append("\\begin{");
    out.append(env);
    out.append("}\n\\caption{");
    push_inline(&mut out, caption);
    out.append("}\\label{");
    out.append(id);
    out.append("}\n\\begin{algorithmic}[1]\n");
    render_algo_steps(steps, 0, &mut out);
    out.append("\\end{algorithmic}\n");
    out.append("\\end{");
    out.append(env);
    out.append("}\n\n");
    out
}


/// Appends the LaTeX for a code listing.
fn push_listing(
    out: &mut String,
    id: &str,
    source: &ListingSource,
    language: &str,
    caption: &str,
    range: Option<(usize, usize)>,
)
    ensures
        final(out)@ == old(out)@ + listing_text(id@, *source, language@, caption@, range),
{
    let ghost before = out@;
    match source {
        ListingSource::File { path } => {
            out.append("\\lstinputlisting[language=");
            out.append(language);
            out.append(", caption={");
            push_inline(out, caption);
            out.append("}, label=");
            out.append(id);
            let ghost mid = out@;
            match range {
                Some((a, b)) => {
                    out.append(", firstline=");
                    push_dec(out, a as u64);
                    out.append(", lastline=");
                    push_dec(out, b as u64);
                },
                None => {},
            }
            assert(out@ =~= mid + range_opts(range));
            out.append("]{");
            out.append(path.as_str());
            out.append("}\n\n");
        },
        ListingSource::Inline { content } => {
            out.append("\\begin{lstlisting}[language=");
            out.append(language);
            out.append(", caption={");
            push_inline(out, caption);
            out.append("}, label=");
            out.append(id);
            out.append("]\n");
            let body = trim_end(content.as_str());
            out.append(body.as_str());
            out.append("\n\\end{lstlisting}\n\n");
        },
    }
    assert(out@ =~= before + listing_text(id@, *source, language@, caption@, range));
}

/// Appends the LaTeX for the pictures of a figure group.
fn push_subfigures(out: &mut String, figs: &Vec<SubFigure>)
    ensures
        final(out)@ == old(out)@ + subfigures_text(figs@),
{
    let n = figs.len();
    for i in 0..n
        invariant
            n == figs.len(),
            out@ == old(out)@ + subfigures_text(figs@.take(i as int)),
    {
        assert(figs@.take(i + 1).drop_last() =~= figs@.take(i as int));
        let ghost before = out@;
        let f = &figs[i];
        out.append("\\begin{subfigure}[b]{");
        out.append(f.width.as_str());
        out.append("\\linewidth}\n\\includegraphics[width=\\linewidth]{");
        out.append(f.path.as_str());
        out.append("}\n\\caption{");
        push_inline(out, f.subcaption.as_str());
        out.append("}\n\\end{subfigure}\n\\hfill\n");
        assert(out@ =~= before + subfigure_text(figs@[i as int]));
    }
    assert(figs@.take(n as int) =~= figs@);
}

/// Appends the LaTeX for the items of a list.
fn push_items(items: &Vec<ListItem>, out: &mut String)
    ensures
        final(out)@ == old(out)@ + items_text(items@),
    decreases items, 0int,
{
    let n = items.len();
    for i in 0..n
        invariant
            n == items.len(),
            out@ == old(out)@ + items_text(items@.take(i as int)),
    {
        assert(items@.take(i + 1).drop_last() =~= items@.take(i as int));
        let ghost before = out@;
        match &items[i] {
            ListItem::Text(t) => {
                out.append("  \\item ");
                push_inline(out, t.as_str());
                out.append("\n");
            },
            ListItem::Nested(b) => {
                out.append("  \\item\n");
                push_block(b, out);
            },
        }
        assert(out@ =~= before + item_text(items@[i as int]));
    }
    assert(items@.take(n as int) =~= items@);
}

/// Appends the LaTeX for one block.
fn push_block(block: &Block, out: &mut String)
    ensures
        final(out)@ == old(out)@ + block_text(*block),
    decreases block, 1int,
{
    let ghost before = out@;
    match block {
        Block::Paragraph { text } => {
            push_inline(out, text.as_str());
            out.append("\n\n");
        },
        Block::Formula { id, content } => {
            match id {
                Some(id) => {
                    out.append("\\begin{equation}\\label{");
                    out.append(id.as_str());
                    out.append("}\n");
                    out.append(content.as_str());
                    out.append("\n\\end{equation}\n\n");
                },
                None => {
                    out.append("\\[\n");
                    out.append(content.as_str());
                    out.append("\n\\]\n\n");
                },
            }
        },
        Block::Figure { id, path, caption, width } => {
            out.append("\\begin{figure}[h]\n\\centering\n\\includegraphics[width=");
            out.append(width.as_str());
            out.append("\\linewidth]{");
            out.append(path.as_str());
            out.append("}\n\\caption{");
            push_inline(out, caption.as_str());
            out.append("}\\label{");
            out.append(id.as_str());
            out.append("}\n\\end{figure}\n\n");
        },
        Block::Listing { id, source, language, caption, range } => {
            push_listing(out, id.as_str(), source, language.as_str(), caption.as_str(), *range);
        },
        Block::Table { id, caption, columns, rows } => {
            let t = render_table(id.as_str(), caption.as_str(), columns, rows);
            out.append(t.as_str());
        },
        Block::List { ordered, items } => {
            let env = if *ordered {
                "enumerate"
            } else {
                "itemize"
            };
            out.append("\\begin{");
            out.append(env);
            out.append("}\n");
            push_items(items, out);
            out.append("\\end{");
            out.append(env);
            out.append("}\n\n");
        },
        Block::FigureGroup { id, caption, layout: _, figures } => {
            out.append("\\begin{figure}[h]\n\\centering\n");
            push_subfigures(out, figures);
            out.append("\\caption{");
            push_inline(out, caption.as_str());
            out.append("}\\label{");
            out.append(id.as_str());
            out.append("}\n\\end{figure}\n\n");
        },
        Block::Algorithm { id, caption, numbered, steps } => {
            let t = render_algorithm(id.as_str(), caption.as_str(), *numbered, steps);
            out.append(t.as_str());
        },
        Block::Note { text, title } => {
            out.append(
                "\\begin{tcolorbox}[colback=blue!5!white, colframe=blue!50!black, title=",
            );
            match title {
                Some(t) => out.append(t.as_str()),
                None => out.append("Примечание"),
            }
            out.append("]\n");
            push_inline(out, text.as_str());
            out.append("\n\\end{tcolorbox}\n\n");
        },
        Block::Warning { text, title } => {
            out.append("\\begin{tcolorbox}[colback=red!5!white, colframe=red!60!black, title=");
            match title {
                Some(t) => out.append(t.as_str()),
                None => out.append("Внимание"),
            }
            out.append("]\n");
            push_inline(out, text.as_str());
            out.append("\n\\end{tcolorbox}\n\n");
        },
        Block::PageBreak => {
            out.append("\\clearpage\n\n");
        },
        Block::RawLatex { content } => {
            out.append(content.as_str());
            out.append("\n\n");
        },
    }
    assert(out@ =~= before + block_text(*block));
}

/// Renders one block as LaTeX.
pub fn render(block: &Block) -> (r: String)
    ensures
        r@ == block_text(*block),
{
    let mut out = String::new();
    push_block(block, &mut out);
    out
}

/// The bibliography formatting settings (none are read yet).
#[derive(Default)]
pub struct BibFormat;


/// `rows_text` is the concatenation of the pieces of its items.
proof fn lemma_rows_text_pieces(s: Seq<Vec<String>>, g: spec_fn(Vec<String>) -> Seq<char>)
    requires
        forall|y: Vec<String>| #[trigger] g(y) == join(inline_all(y@), " & "@) + " \\\\\n"@,
    ensures
        rows_text(s) == concat_map(s, g),
    decreases s.len(),
{
    if s.len() > 0 {
        lemma_rows_text_pieces(s.drop_last(), g);
    }
}

/// Table rows keep their order: the result for two runs of items is the result for the first run
/// followed by the result for the second, and the result for one item is
/// its cells joined by ` & ` and ended by `\\`.
pub proof fn lemma_rows_text_in_order(a: Seq<Vec<String>>, b: Seq<Vec<String>>, x: Vec<String>)
    ensures
        rows_text(a + b) == rows_text(a) + rows_text(b),
        rows_text(seq![x]) == join(inline_all(x@), " & "@) + " \\\\\n"@,
{
    let g = |y: Vec<String>| join(inline_all(y@), " & "@) + " \\\\\n"@;
    lemma_rows_text_pieces(a, g);
    lemma_rows_text_pieces(b, g);
    lemma_rows_text_pieces(a + b, g);
    lemma_rows_text_pieces(seq![x], g);
    lemma_concat_map_append(a, b, g);
    lemma_concat_map_single(x, g);
}

/// Table rows keep their order: the piece of the `k`-th item stands at its place, between the
/// result for the items before it and the result for the items after it.
pub proof fn lemma_rows_text_at(s: Seq<Vec<String>>, k: int)
    requires
        0 <= k < s.len(),
    ensures
        rows_text(s) == rows_text(s.take(k)) + join(inline_all(s[k]@), " & "@) + " \\\\\n"@ + rows_text(s.skip(k + 1)),
{
    let g = |y: Vec<String>| join(inline_all(y@), " & "@) + " \\\\\n"@;
    lemma_rows_text_pieces(s, g);
    lemma_rows_text_pieces(s.take(k), g);
    lemma_rows_text_pieces(s.skip(k + 1), g);
    lemma_concat_map_at(s, k, g);
}

/// `steps_text` is the concatenation of the pieces of its items.
proof fn lemma_steps_text_pieces(s: Seq<AlgoStep>, depth: nat, g: spec_fn(AlgoStep) -> Seq<char>)
    requires
        forall|y: AlgoStep| #[trigger] g(y) == step_text(y, depth),
    ensures
        steps_text(s, depth) == concat_map(s, g),
    decreases s.len(),
{
    if s.len() > 0 {
        lemma_steps_text_pieces(s.drop_last(), depth, g);
    }
}

/// Algorithm steps keep their order: the result for two runs of items is the result for the
/// first run
/// followed by the result for the second, and the result for one item is
/// the lines of that step.
pub proof fn lemma_steps_text_in_order(a: Seq<AlgoStep>, b: Seq<AlgoStep>, x: AlgoStep, depth: nat)
    ensures
        steps_text(a + b, depth) == steps_text(a, depth) + steps_text(b, depth),
        steps_text(seq![x], depth) == step_text(x, depth),
{
    let g = |y: AlgoStep| step_text(y, depth);
    lemma_steps_text_pieces(a, depth, g);
    lemma_steps_text_pieces(b, depth, g);
    lemma_steps_text_pieces(a + b, depth, g);
    lemma_steps_text_pieces(seq![x], depth, g);
    lemma_concat_map_append(a, b, g);
    lemma_concat_map_single(x, g);
}

/// Algorithm steps keep their order: the piece of the `k`-th item stands at its place, between the
/// result for the items before it and the result for the items after it.
pub proof fn lemma_steps_text_at(s: Seq<AlgoStep>, k: int, depth: nat)
    requires
        0 <= k < s.len(),
    ensures
        steps_text(s, depth) == steps_text(s.take(k), depth) + step_text(s[k], depth) + steps_text(s.skip(k + 1), depth),
{
    let g = |y: AlgoStep| step_text(y, depth);
    lemma_steps_text_pieces(s, depth, g);
    lemma_steps_text_pieces(s.take(k), depth, g);
    lemma_steps_text_pieces(s.skip(k + 1), depth, g);
    lemma_concat_map_at(s, k, g);
}

/// `subfigures_text` is the concatenation of the pieces of its items.
proof fn lemma_subfigures_text_pieces(s: Seq<SubFigure>, g: spec_fn(SubFigure) -> Seq<char>)
    requires
        forall|y: SubFigure| #[trigger] g(y) == subfigure_text(y),
    ensures
        subfigures_text(s) == concat_map(s, g),
    decreases s.len(),
{
    if s.len() > 0 {
        lemma_subfigures_text_pieces(s.drop_last(), g);
    }
}

/// The pictures of a figure group keep their order: the result for two runs of items is the
/// result for the first run
/// followed by the result for the second, and the result for one item is
/// the LaTeX of that picture.
pub proof fn lemma_subfigures_text_in_order(a: Seq<SubFigure>, b: Seq<SubFigure>, x: SubFigure)
    ensures
        subfigures_text(a + b) == subfigures_text(a) + subfigures_text(b),
        subfigures_text(seq![x]) == subfigure_text(x),
{
    let g = |y: SubFigure| subfigure_text(y);
    lemma_subfigures_text_pieces(a, g);
    lemma_subfigures_text_pieces(b, g);
    lemma_subfigures_text_pieces(a + b, g);
    lemma_subfigures_text_pieces(seq![x], g);
    lemma_concat_map_append(a, b, g);
    lemma_concat_map_single(x, g);
}

/// The pictures of a figure group keep their order: the piece of the `k`-th item stands at its
/// place, between the
/// result for the items before it and the result for the items after it.
pub proof fn lemma_subfigures_text_at(s: Seq<SubFigure>, k: int)
    requires
        0 <= k < s.len(),
    ensures
        subfigures_text(s) == subfigures_text(s.take(k)) + subfigure_text(s[k]) + subfigures_text(s.skip(k + 1)),
{
    let g = |y: SubFigure| subfigure_text(y);
    lemma_subfigures_text_pieces(s, g);
    lemma_subfigures_text_pieces(s.take(k), g);
    lemma_subfigures_text_pieces(s.skip(k + 1), g);
    lemma_concat_map_at(s, k, g);
}

/// `items_text` is the concatenation of the pieces of its items.
proof fn lemma_items_text_pieces(s: Seq<ListItem>, g: spec_fn(ListItem) -> Seq<char>)
    requires
        forall|y: ListItem| #[trigger] g(y) == item_text(y),
    ensures
        items_text(s) == concat_map(s, g),
    decreases s.len(),
{
    if s.len() > 0 {
        lemma_items_text_pieces(s.drop_last(), g);
    }
}

/// List items keep their order: the result for two runs of items is the result for the first run
/// followed by the result for the second, and the result for one item is
/// the LaTeX of that item.
pub proof fn lemma_items_text_in_order(a: Seq<ListItem>, b: Seq<ListItem>, x: ListItem)
    ensures
        items_text(a + b) == items_text(a) + items_text(b),
        items_text(seq![x]) == item_text(x),
{
    let g = |y: ListItem| item_text(y);
    lemma_items_text_pieces(a, g);
    lemma_items_text_pieces(b, g);
    lemma_items_text_pieces(a + b, g);
    lemma_items_text_pieces(seq![x], g);
    lemma_concat_map_append(a, b, g);
    lemma_concat_map_single(x, g);
}

/// List items keep their order: the piece of the `k`-th item stands at its place, between the
/// result for the items before it and the result for the items after it.
pub proof fn lemma_items_text_at(s: Seq<ListItem>, k: int)
    requires
        0 <= k < s.len(),
    ensures
        items_text(s) == items_text(s.take(k)) + item_text(s[k]) + items_text(s.skip(k + 1)),
{
    let g = |y: ListItem| item_text(y);
    lemma_items_text_pieces(s, g);
    lemma_items_text_pieces(s.take(k), g);
    lemma_items_text_pieces(s.skip(k + 1), g);
    lemma_concat_map_at(s, k, g);
}


/// A note shows the title it is given; the default title "Примечание" appears
/// only when none is given: the note with title `t` is the untitled note
/// with "Примечание" replaced by `t`.
pub proof fn lemma_note_title(text: String, t: String)
    ensures
        ({
            let pre = "\\begin{tcolorbox}[colback=blue!5!white, colframe=blue!50!black, title="@;
            let untitled = block_text(Block::Note { text, title: None });
            &&& untitled.subrange(pre.len() as int, (pre.len() + "Примечание"@.len()) as int)
                == "Примечание"@
            &&& untitled.take(pre.len() as int) == pre
            &&& block_text(Block::Note { text, title: Some(t) }) == pre + t@ + untitled.skip(
                (pre.len() + "Примечание"@.len()) as int,
            )
        }),
{
    let pre = "\\begin{tcolorbox}[colback=blue!5!white, colframe=blue!50!black, title="@;
    let rest = "]\n"@ + inline_text(text@) + "\n\\end{tcolorbox}\n\n"@;
    let untitled = block_text(Block::Note { text, title: None });
    assert(untitled =~= pre + "Примечание"@ + rest);
    assert(untitled.subrange(pre.len() as int, (pre.len() + "Примечание"@.len()) as int)
        =~= "Примечание"@);
    assert(untitled.take(pre.len() as int) =~= pre);
    assert(untitled.skip((pre.len() + "Примечание"@.len()) as int) =~= rest);
    assert(block_text(Block::Note { text, title: Some(t) }) =~= pre + t@ + rest);
}

/// A warning shows the title it is given; the default title "Внимание" appears
/// only when none is given: the warning with title `t` is the untitled warning
/// with "Внимание" replaced by `t`.
pub proof fn lemma_warning_title(text: String, t: String)
    ensures
        ({
            let pre = "\\begin{tcolorbox}[colback=red!5!white, colframe=red!60!black, title="@;
            let untitled = block_text(Block::Warning { text, title: None });
            &&& untitled.subrange(pre.len() as int, (pre.len() + "Внимание"@.len()) as int)
                == "Внимание"@
            &&& untitled.take(pre.len() as int) == pre
            &&& block_text(Block::Warning { text, title: Some(t) }) == pre + t@ + untitled.skip(
                (pre.len() + "Внимание"@.len()) as int,
            )
        }),
{
    let pre = "\\begin{tcolorbox}[colback=red!5!white, colframe=red!60!black, title="@;
    let rest = "]\n"@ + inline_text(text@) + "\n\\end{tcolorbox}\n\n"@;
    let untitled = block_text(Block::Warning { text, title: None });
    assert(untitled =~= pre + "Внимание"@ + rest);
    assert(untitled.subrange(pre.len() as int, (pre.len() + "Внимание"@.len()) as int)
        =~= "Внимание"@);
    assert(untitled.take(pre.len() as int) =~= pre);
    assert(untitled.skip((pre.len() + "Внимание"@.len()) as int) =~= rest);
    assert(block_text(Block::Warning { text, title: Some(t) }) =~= pre + t@ + rest);
}

} // verus!
