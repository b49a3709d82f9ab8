//! The checks made on a loaded document (unique ids, referenced files
//! present) and the splicing of `!import` tags into the YAML text.
//!
//! Reading files and asking whether a file exists is left to the caller:
//! the checks take the list of missing files, and the import splicing takes
//! the already resolved text of each imported file.
use vstd::prelude::*;

use crate::ir::types::{Block, Document, ListItem, ListingSource, Section, SectionKind, SubFigure};
use crate::text::{
    back_char, back_ws, join, leading_ws, lines, push_join, range_eq, range_string, skip_char,
    skip_ws, split_lines, starts_with, to_chars, trim_char, trim_ws, views, concat_map,
    lemma_concat_map_append, lemma_concat_map_at, lemma_concat_map_single,
};

verus! {

// ───────────────────────────── ids and references ─────────────────────────────

/// What an id names.
#[derive(Debug, Clone, Copy, PartialEq, Eq, Structural)]
pub enum IdKind {
    Section,
    BibEntry,
    Formula,
    Figure,
    FigureGroup,
    Listing,
    Table,
}

/// The name under which an id kind appears in messages.
pub open spec fn kind_name(k: IdKind) -> Seq<char> {
    match k {
        IdKind::Section => "section"@,
        IdKind::BibEntry => "bib entry"@,
        IdKind::Formula => "formula"@,
        IdKind::Figure => "figure"@,
        IdKind::FigureGroup => "figure_group"@,
        IdKind::Listing => "listing"@,
        IdKind::Table => "table"@,
    }
}

impl IdKind {
    /// The name under which this kind appears in messages.
    pub fn name(&self) -> (r: &'static str)
        ensures
            r@ == kind_name(*self),
    {
        match self {
            IdKind::Section => "section",
            IdKind::BibEntry => "bib entry",
            IdKind::Formula => "formula",
            IdKind::Figure => "figure",
            IdKind::FigureGroup => "figure_group",
            IdKind::Listing => "listing",
            IdKind::Table => "table",
        }
    }
}

/// Something a document refers to that the checks look at: an id it
/// defines, or a file it includes (by its path relative to the document).
pub ghost enum Reference {
    Id { id: Seq<char>, kind: IdKind },
    File { path: Seq<char> },
}

/// The references made by a block, in document order.
pub open spec fn block_refs(b: Block) -> Seq<Reference>
    decreases b, 2int,
{
    match b {
        Block::Formula { id, .. } => match id {
            Some(id) => seq![Reference::Id { id: id@, kind: IdKind::Formula }],
            None => Seq::empty(),
        },
        Block::Figure { id, path, .. } => seq![
            Reference::Id { id: id@, kind: IdKind::Figure },
            Reference::File { path: path@ },
        ],
        Block::FigureGroup { id, figures, .. } => seq![
            Reference::Id { id: id@, kind: IdKind::FigureGroup },
        ] + figure_refs(figures@),
        Block::Listing { id, source, .. } => seq![Reference::Id { id: id@, kind: IdKind::Listing }]
            + match source {
            ListingSource::File { path } => seq![Reference::File { path: path@ }],
            ListingSource::Inline { .. } => Seq::empty(),
        },
        Block::Table { id, .. } => seq![Reference::Id { id: id@, kind: IdKind::Table }],
        Block::List { items, .. } => items_refs(items@),
        _ => Seq::empty(),
    }
}

/// The files of a figure group's pictures, in order.
pub open spec fn figure_refs(figs: Seq<SubFigure>) -> Seq<Reference>
    decreases figs.len(),
{
    if figs.len() == 0 {
        Seq::empty()
    } else {
        figure_refs(figs.drop_last()) + seq![Reference::File { path: figs.last().path@ }]
    }
}

/// The references made by the nested blocks of a list, in order.
pub open spec fn items_refs(items: Seq<ListItem>) -> Seq<Reference>
    decreases items, 0int,
{
    if items.len() == 0 {
        Seq::empty()
    } else {
        items_refs(items.drop_last()) + item_refs(items.last())
    }
}

/// The references made by one list item.
pub open spec fn item_refs(item: ListItem) -> Seq<Reference>
    decreases item, 1int,
{
    match item {
        ListItem::Text(_) => Seq::empty(),
        ListItem::Nested(b) => block_refs(*b),
    }
}

/// The references made by blocks, in order.
pub open spec fn blocks_refs(blocks: Seq<Block>) -> Seq<Reference>
    decreases blocks.len(),
{
    if blocks.len() == 0 {
        Seq::empty()
    } else {
        blocks_refs(blocks.drop_last()) + block_refs(blocks.last())
    }
}

/// The ids of bibliography entries, in order.
pub open spec fn entries_refs(entries: Seq<crate::ir::types::BibEntry>) -> Seq<Reference>
    decreases entries.len(),
{
    if entries.len() == 0 {
        Seq::empty()
    } else {
        entries_refs(entries.drop_last()) + seq![
            Reference::Id { id: entries.last().id@, kind: IdKind::BibEntry },
        ]
    }
}

/// The references made by a section and everything inside it, in order.
pub open spec fn section_refs(s: Section) -> Seq<Reference>
    decreases s, 1int,
{
    seq![Reference::Id { id: s.id@, kind: IdKind::Section }] + match s.kind {
        SectionKind::Regular { body, subsections } => blocks_refs(body@) + sections_refs(
            subsections@,
        ),
        SectionKind::Bibliography { entries } => entries_refs(entries@),
    }
}

/// The references made by sections, in order.
pub open spec fn sections_refs(ss: Seq<Section>) -> Seq<Reference>
    decreases ss, 0int,
{
    if ss.len() == 0 {
        Seq::empty()
    } else {
        sections_refs(ss.drop_last()) + section_refs(ss.last())
    }
}

// ───────────────────────────── checking ─────────────────────────────

/// A file path as seen from `base` (`Path::join`): an absolute path stays
/// as it is, a relative one is put under `base`.
pub open spec fn join_path(base: Seq<char>, p: Seq<char>) -> Seq<char> {
    if p.len() > 0 && p[0] == '/' {
        p
    } else if base.len() == 0 || base.last() == '/' {
        base + p
    } else {
        base + "/"@ + p
    }
}

/// The kind an id was first defined with, if it was.
pub open spec fn lookup(ids: Seq<(Seq<char>, IdKind)>, id: Seq<char>) -> Option<IdKind>
    decreases ids.len(),
{
    if ids.len() == 0 {
        None
    } else if ids[0].0 == id {
        Some(ids[0].1)
    } else {
        lookup(ids.drop_first(), id)
    }
}

/// The message for an id defined twice.
pub open spec fn duplicate_msg(id: Seq<char>, prev: IdKind, kind: IdKind) -> Seq<char> {
    "  Duplicate id '"@ + id + "': first seen as "@ + kind_name(prev) + ", redefined as "@
        + kind_name(kind)
}

/// The message for a missing file.
pub open spec fn missing_msg(full: Seq<char>) -> Seq<char> {
    "  Missing file: "@ + full
}

/// The ids seen so far (each with its first kind) and the errors so far.
pub type CheckState = (Seq<(Seq<char>, IdKind)>, Seq<Seq<char>>);

/// The check of one reference: a repeated id or a missing file adds an
/// error, a new id is remembered.
pub open spec fn check_step(
    st: CheckState,
    r: Reference,
    base: Seq<char>,
    missing: Seq<Seq<char>>,
) -> CheckState {
    match r {
        Reference::Id { id, kind } => match lookup(st.0, id) {
            Some(prev) => (st.0, st.1.push(duplicate_msg(id, prev, kind))),
            None => (st.0.push((id, kind)), st.1),
        },
        Reference::File { path } => if missing.contains(join_path(base, path)) {
            (st.0, st.1.push(missing_msg(join_path(base, path))))
        } else {
            st
        },
    }
}

/// The checks of references in order.
pub open spec fn check_all(
    refs: Seq<Reference>,
    st: CheckState,
    base: Seq<char>,
    missing: Seq<Seq<char>>,
) -> CheckState
    decreases refs.len(),
{
    if refs.len() == 0 {
        st
    } else {
        check_all(refs.drop_first(), check_step(st, refs[0], base, missing), base, missing)
    }
}

/// Checking two runs of references one after the other.
pub proof fn lemma_check_all_concat(
    a: Seq<Reference>,
    b: Seq<Reference>,
    st: CheckState,
    base: Seq<char>,
    missing: Seq<Seq<char>>,
)
    ensures
        check_all(a + b, st, base, missing) == check_all(
            b,
            check_all(a, st, base, missing),
            base,
            missing,
        ),
    decreases a.len(),
{
    if a.len() == 0 {
        assert(a + b =~= b);
    } else {
        assert((a + b).drop_first() =~= a.drop_first() + b);
        lemma_check_all_concat(
            a.drop_first(),
            b,
            check_step(st, a[0], base, missing),
            base,
            missing,
        );
    }
}

/// The message of a failed validation.
pub open spec fn validation_msg(errors: Seq<Seq<char>>) -> Seq<char> {
    "Document validation failed:\n"@ + join(errors, "\n"@)
}

/// The outcome of validating a document whose directory is `base`, given
/// the files (as joined paths) that do not exist.
pub open spec fn validation_result(
    doc: Document,
    base: Seq<char>,
    missing: Seq<Seq<char>>,
) -> Result<(), Seq<char>> {
    let errors = check_all(sections_refs(doc.document@), (Seq::empty(), Seq::empty()), base, missing).1;
    if errors.len() == 0 {
        Ok(())
    } else {
        Err(validation_msg(errors))
    }
}


/// Checking a single reference.
pub proof fn lemma_check_all_one(
    r: Reference,
    st: CheckState,
    base: Seq<char>,
    missing: Seq<Seq<char>>,
)
    ensures
        check_all(seq![r], st, base, missing) == check_step(st, r, base, missing),
{
    assert(seq![r].drop_first() =~= Seq::<Reference>::empty());
    assert(check_all(Seq::empty(), check_step(st, r, base, missing), base, missing) == check_step(
        st,
        r,
        base,
        missing,
    ));
}

/// Checking the references made so far and then one more group of them.
proof fn lemma_check_all_snoc(
    a: Seq<Reference>,
    b: Seq<Reference>,
    st: CheckState,
    mid: CheckState,
    base: Seq<char>,
    missing: Seq<Seq<char>>,
)
    requires
        mid == check_all(a, st, base, missing),
    ensures
        check_all(b, mid, base, missing) == check_all(a + b, st, base, missing),
{
    lemma_check_all_concat(a, b, st, base, missing);
}

// ───────────────────────────── executable checks ─────────────────────────────

/// The ids defined so far, each with the kind it was first defined as.
pub struct IdRegistry {
    entries: Vec<(String, IdKind)>,
}

impl View for IdRegistry {
    type V = Seq<(Seq<char>, IdKind)>;

    closed spec fn view(&self) -> Seq<(Seq<char>, IdKind)> {
        Seq::new(self.entries@.len(), |i: int| (self.entries@[i].0@, self.entries@[i].1))
    }
}

impl IdRegistry {
    /// A registry with no ids.
    pub fn new() -> (r: IdRegistry)
        ensures
            r@ == Seq::<(Seq<char>, IdKind)>::empty(),
    {
        let r = IdRegistry { entries: Vec::new() };
        assert(r@ =~= Seq::<(Seq<char>, IdKind)>::empty());
        r
    }

    /// The kind `id` was first defined as, if it was.
    pub fn get(&self, id: &str) -> (r: Option<IdKind>)
        ensures
            r == lookup(self@, id@),
    {
        let key = String::from_str(id);
        let n = self.entries.len();
        let mut k: usize = 0;
        assert(self@.skip(0) =~= self@);
        while k < n
            invariant
                n == self.entries.len(),
                k <= n,
                key@ == id@,
                lookup(self@, id@) == lookup(self@.skip(k as int), id@),
            decreases n - k,
        {
            assert(self@.skip(k as int)[0] == (self.entries@[k as int].0@, self.entries@[k as int].1));
            if self.entries[k].0 == key {
                return Some(self.entries[k].1);
            }
            assert(self@.skip(k as int).drop_first() =~= self@.skip(k + 1));
            k = k + 1;
        }
        None
    }

    /// Remembers `id` as defined with `kind`.
    pub fn insert(&mut self, id: &str, kind: IdKind)
        ensures
            final(self)@ == old(self)@.push((id@, kind)),
    {
        self.entries.push((String::from_str(id), kind));
        assert(self@ =~= old(self)@.push((id@, kind)));
    }
}

/// The state of the checks: the ids seen and the errors found.
pub open spec fn check_state(ids: &IdRegistry, errors: &Vec<String>) -> CheckState {
    (ids@, views(errors@))
}

/// Adds an error message.
fn push_error(errors: &mut Vec<String>, msg: String)
    ensures
        views(final(errors)@) == views(old(errors)@).push(msg@),
{
    errors.push(msg);
    assert(views(errors@) =~= views(old(errors)@).push(msg@));
}

/// Records the definition of `id`, or an error when it was defined before.
pub fn check_id(id: &str, kind: IdKind, ids: &mut IdRegistry, errors: &mut Vec<String>)
    ensures
        match lookup(old(ids)@, id@) {
            Some(prev) => final(ids)@ == old(ids)@ && views(final(errors)@) == views(
                old(errors)@,
            ).push(duplicate_msg(id@, prev, kind)),
            None => final(ids)@ == old(ids)@.push((id@, kind)) && final(errors)@ == old(errors)@,
        },
{
    match ids.get(id) {
        Some(prev) => {
            let mut msg = String::new();
            msg.append("  Duplicate id '");
            msg.append(id);
            msg.append("': first seen as ");
            msg.append(prev.name());
            msg.append(", redefined as ");
            msg.append(kind.name());
            push_error(errors, msg);
        },
        None => {
            ids.insert(id, kind);
        },
    }
}

/// `path` as seen from `base` (`Path::join`).
pub fn join_to(base: &str, path: &str) -> (r: String)
    ensures
        r@ == join_path(base@, path@),
{
    let pv = crate::text::to_chars(path);
    let bv = crate::text::to_chars(base);
    if pv.len() > 0 && pv[0] == '/' {
        String::from_str(path)
    } else if bv.len() == 0 || bv[bv.len() - 1] == '/' {
        let mut r = String::from_str(base);
        r.append(path);
        r
    } else {
        let mut r = String::from_str(base);
        r.append("/");
        r.append(path);
        r
    }
}

/// Whether `s` is one of `list`.
fn contains_string(list: &Vec<String>, s: &String) -> (r: bool)
    ensures
        r == views(list@).contains(s@),
{
    let n = list.len();
    let mut k: usize = 0;
    while k < n
        invariant
            n == list.len(),
            k <= n,
            forall|m: int| 0 <= m < k ==> views(list@)[m] != s@,
        decreases n - k,
    {
        if list[k] == *s {
            assert(views(list@)[k as int] == s@);
            return true;
        }
        k = k + 1;
    }
    false
}

/// Records an error when the file at `path` (relative to `base_dir`) is
/// among the missing ones.
pub fn check_path(path: &str, base_dir: &str, missing: &Vec<String>, errors: &mut Vec<String>)
    ensures
        views(missing@).contains(join_path(base_dir@, path@)) ==> views(final(errors)@) == views(
            old(errors)@,
        ).push(missing_msg(join_path(base_dir@, path@))),
        !views(missing@).contains(join_path(base_dir@, path@)) ==> final(errors)@ == old(
            errors,
        )@,
{
    let full = join_to(base_dir, path);
    if contains_string(missing, &full) {
        let mut msg = String::new();
        msg.append("  Missing file: ");
        msg.append(full.as_str());
        push_error(errors, msg);
    }
}

/// Checks an id as one reference.
fn step_id(
    id: &str,
    kind: IdKind,
    ids: &mut IdRegistry,
    errors: &mut Vec<String>,
    base: Ghost<Seq<char>>,
    missing: Ghost<Seq<Seq<char>>>,
)
    ensures
        check_state(final(ids), final(errors)) == check_all(
            seq![Reference::Id { id: id@, kind }],
            check_state(old(ids), old(errors)),
            base@,
            missing@,
        ),
{
    proof {
        lemma_check_all_one(
            Reference::Id { id: id@, kind },
            check_state(ids, errors),
            base@,
            missing@,
        );
    }
    check_id(id, kind, ids, errors);
}

/// Checks a file as one reference.
fn step_path(path: &str, base_dir: &str, missing: &Vec<String>, errors: &mut Vec<String>, ids: &IdRegistry)
    ensures
        check_state(ids, final(errors)) == check_all(
            seq![Reference::File { path: path@ }],
            check_state(ids, old(errors)),
            base_dir@,
            views(missing@),
        ),
{
    proof {
        lemma_check_all_one(
            Reference::File { path: path@ },
            check_state(ids, errors),
            base_dir@,
            views(missing@),
        );
    }
    check_path(path, base_dir, missing, errors);
}

/// Checks the pictures of a figure group.
fn check_figures(
    figs: &Vec<SubFigure>,
    base_dir: &str,
    missing: &Vec<String>,
    ids: &IdRegistry,
    errors: &mut Vec<String>,
)
    ensures
        check_state(ids, final(errors)) == check_all(
            figure_refs(figs@),
            check_state(ids, old(errors)),
            base_dir@,
            views(missing@),
        ),
{
    let ghost st0 = check_state(ids, errors);
    let n = figs.len();
    for i in 0..n
        invariant
            n == figs.len(),
            st0 == check_state(ids, old(errors)),
            check_state(ids, errors) == check_all(
                figure_refs(figs@.take(i as int)),
                st0,
                base_dir@,
                views(missing@),
            ),
    {
        assert(figs@.take(i + 1).drop_last() =~= figs@.take(i as int));
        let ghost mid = check_state(ids, errors);
        step_path(figs[i].path.as_str(), base_dir, missing, errors, ids);
        proof {
            lemma_check_all_snoc(
                figure_refs(figs@.take(i as int)),
                seq![Reference::File { path: figs@[i as int].path@ }],
                st0,
                mid,
                base_dir@,
                views(missing@),
            );
        }
    }
    assert(figs@.take(n as int) =~= figs@);
}

/// Checks the nested blocks of a list.
fn check_items(
    items: &Vec<ListItem>,
    base_dir: &str,
    missing: &Vec<String>,
    ids: &mut IdRegistry,
    errors: &mut Vec<String>,
)
    ensures
        check_state(final(ids), final(errors)) == check_all(
            items_refs(items@),
            check_state(old(ids), old(errors)),
            base_dir@,
            views(missing@),
        ),
    decreases items, 0int,
{
    let ghost st0 = check_state(ids, errors);
    let n = items.len();
    for i in 0..n
        invariant
            n == items.len(),
            st0 == check_state(old(ids), old(errors)),
            check_state(ids, errors) == check_all(
                items_refs(items@.take(i as int)),
                st0,
                base_dir@,
                views(missing@),
            ),
    {
        assert(items@.take(i + 1).drop_last() =~= items@.take(i as int));
        let ghost mid = check_state(ids, errors);
        match &items[i] {
            ListItem::Nested(nested) => {
                collect_block(nested, base_dir, missing, ids, errors);
            },
            ListItem::Text(_) => {
                assert(check_all(Seq::empty(), mid, base_dir@, views(missing@)) == mid);
            },
        }
        proof {
            lemma_check_all_snoc(
                items_refs(items@.take(i as int)),
                item_refs(items@[i as int]),
                st0,
                mid,
                base_dir@,
                views(missing@),
            );
        }
    }
    assert(items@.take(n as int) =~= items@);
}

/// Checks the ids and files of one block.
pub fn collect_block(
    block: &Block,
    base_dir: &str,
    missing: &Vec<String>,
    ids: &mut IdRegistry,
    errors: &mut Vec<String>,
)
    ensures
        check_state(final(ids), final(errors)) == check_all(
            block_refs(*block),
            check_state(old(ids), old(errors)),
            base_dir@,
            views(missing@),
        ),
    decreases block, 1int,
{
    let ghost st0 = check_state(ids, errors);
    let ghost base = base_dir@;
    let ghost miss = views(missing@);
    match block {
        Block::Formula { id: Some(id), .. } => {
            step_id(id.as_str(), IdKind::Formula, ids, errors, Ghost(base), Ghost(miss));
        },
        Block::Figure { id, path, .. } => {
            step_id(id.as_str(), IdKind::Figure, ids, errors, Ghost(base), Ghost(miss));
            let ghost mid = check_state(ids, errors);
            step_path(path.as_str(), base_dir, missing, errors, ids);
            proof {
                lemma_check_all_snoc(
                    seq![Reference::Id { id: id@, kind: IdKind::Figure }],
                    seq![Reference::File { path: path@ }],
                    st0,
                    mid,
                    base,
                    miss,
                );
                assert(block_refs(*block) =~= seq![Reference::Id { id: id@, kind: IdKind::Figure }]
                    + seq![Reference::File { path: path@ }]);
            }
        },
        Block::FigureGroup { id, figures, .. } => {
            step_id(id.as_str(), IdKind::FigureGroup, ids, errors, Ghost(base), Ghost(miss));
            let ghost mid = check_state(ids, errors);
            check_figures(figures, base_dir, missing, ids, errors);
            proof {
                lemma_check_all_snoc(
                    seq![Reference::Id { id: id@, kind: IdKind::FigureGroup }],
                    figure_refs(figures@),
                    st0,
                    mid,
                    base,
                    miss,
                );
            }
        },
        Block::Listing { id, source, .. } => {
            step_id(id.as_str(), IdKind::Listing, ids, errors, Ghost(base), Ghost(miss));
            let ghost mid = check_state(ids, errors);
            match source {
                ListingSource::File { path } => {
                    step_path(path.as_str(), base_dir, missing, errors, ids);
                    proof {
                        lemma_check_all_snoc(
                            seq![Reference::Id { id: id@, kind: IdKind::Listing }],
                            seq![Reference::File { path: path@ }],
                            st0,
                            mid,
                            base,
                            miss,
                        );
                    }
                },
                ListingSource::Inline { .. } => {
                    assert(seq![Reference::Id { id: id@, kind: IdKind::Listing }]
                        + Seq::<Reference>::empty() =~= seq![
                        Reference::Id { id: id@, kind: IdKind::Listing },
                    ]);
                },
            }
        },
        Block::Table { id, .. } => {
            step_id(id.as_str(), IdKind::Table, ids, errors, Ghost(base), Ghost(miss));
        },
        Block::List { items, .. } => {
            check_items(items, base_dir, missing, ids, errors);
        },
        _ => {},
    }
}

/// Checks the blocks of a section body.
fn check_blocks(
    blocks: &Vec<Block>,
    base_dir: &str,
    missing: &Vec<String>,
    ids: &mut IdRegistry,
    errors: &mut Vec<String>,
)
    ensures
        check_state(final(ids), final(errors)) == check_all(
            blocks_refs(blocks@),
            check_state(old(ids), old(errors)),
            base_dir@,
            views(missing@),
        ),
{
    let ghost st0 = check_state(ids, errors);
    let n = blocks.len();
    for i in 0..n
        invariant
            n == blocks.len(),
            st0 == check_state(old(ids), old(errors)),
            check_state(ids, errors) == check_all(
                blocks_refs(blocks@.take(i as int)),
                st0,
                base_dir@,
                views(missing@),
            ),
    {
        assert(blocks@.take(i + 1).drop_last() =~= blocks@.take(i as int));
        let ghost mid = check_state(ids, errors);
        collect_block(&blocks[i], base_dir, missing, ids, errors);
        proof {
            lemma_check_all_snoc(
                blocks_refs(blocks@.take(i as int)),
                block_refs(blocks@[i as int]),
                st0,
                mid,
                base_dir@,
                views(missing@),
            );
        }
    }
    assert(blocks@.take(n as int) =~= blocks@);
}

/// Checks the ids of bibliography entries.
fn check_entries(
    entries: &Vec<crate::ir::types::BibEntry>,
    ids: &mut IdRegistry,
    errors: &mut Vec<String>,
    base: Ghost<Seq<char>>,
    missing: Ghost<Seq<Seq<char>>>,
)
    ensures
        check_state(final(ids), final(errors)) == check_all(
            entries_refs(entries@),
            check_state(old(ids), old(errors)),
            base@,
            missing@,
        ),
{
    let ghost st0 = check_state(ids, errors);
    let n = entries.len();
    for i in 0..n
        invariant
            n == entries.len(),
            st0 == check_state(old(ids), old(errors)),
            check_state(ids, errors) == check_all(
                entries_refs(entries@.take(i as int)),
                st0,
                base@,
                missing@,
            ),
    {
        assert(entries@.take(i + 1).drop_last() =~= entries@.take(i as int));
        let ghost mid = check_state(ids, errors);
        step_id(entries[i].id.as_str(), IdKind::BibEntry, ids, errors, base, missing);
        proof {
            lemma_check_all_snoc(
                entries_refs(entries@.take(i as int)),
                seq![Reference::Id { id: entries@[i as int].id@, kind: IdKind::BibEntry }],
                st0,
                mid,
                base@,
                missing@,
            );
        }
    }
    assert(entries@.take(n as int) =~= entries@);
}

/// Checks the ids and files of a section and everything inside it.
pub fn collect_section(
    section: &Section,
    base_dir: &str,
    missing: &Vec<String>,
    ids: &mut IdRegistry,
    errors: &mut Vec<String>,
)
    ensures
        check_state(final(ids), final(errors)) == check_all(
            section_refs(*section),
            check_state(old(ids), old(errors)),
            base_dir@,
            views(missing@),
        ),
    decreases section, 1int,
{
    let ghost st0 = check_state(ids, errors);
    let ghost base = base_dir@;
    let ghost miss = views(missing@);
    let ghost head = seq![Reference::Id { id: section.id@, kind: IdKind::Section }];
    step_id(section.id.as_str(), IdKind::Section, ids, errors, Ghost(base), Ghost(miss));
    let ghost mid = check_state(ids, errors);
    match &section.kind {
        SectionKind::Regular { body, subsections } => {
            check_blocks(body, base_dir, missing, ids, errors);
            let ghost mid2 = check_state(ids, errors);
            check_sections(subsections, base_dir, missing, ids, errors);
            proof {
                lemma_check_all_snoc(head, blocks_refs(body@), st0, mid, base, miss);
                lemma_check_all_snoc(
                    head + blocks_refs(body@),
                    sections_refs(subsections@),
                    st0,
                    mid2,
                    base,
                    miss,
                );
                assert(head + blocks_refs(body@) + sections_refs(subsections@) =~= section_refs(
                    *section,
                ));
            }
        },
        SectionKind::Bibliography { entries } => {
            check_entries(entries, ids, errors, Ghost(base), Ghost(miss));
            proof {
                lemma_check_all_snoc(head, entries_refs(entries@), st0, mid, base, miss);
            }
        },
    }
}

/// Checks sections in order.
fn check_sections(
    ss: &Vec<Section>,
    base_dir: &str,
    missing: &Vec<String>,
    ids: &mut IdRegistry,
    errors: &mut Vec<String>,
)
    ensures
        check_state(final(ids), final(errors)) == check_all(
            sections_refs(ss@),
            check_state(old(ids), old(errors)),
            base_dir@,
            views(missing@),
        ),
    decreases ss, 0int,
{
    let ghost st0 = check_state(ids, errors);
    let n = ss.len();
    for i in 0..n
        invariant
            n == ss.len(),
            st0 == check_state(old(ids), old(errors)),
            check_state(ids, errors) == check_all(
                sections_refs(ss@.take(i as int)),
                st0,
                base_dir@,
                views(missing@),
            ),
    {
        assert(ss@.take(i + 1).drop_last() =~= ss@.take(i as int));
        let ghost mid = check_state(ids, errors);
        collect_section(&ss[i], base_dir, missing, ids, errors);
        proof {
            lemma_check_all_snoc(
                sections_refs(ss@.take(i as int)),
                section_refs(ss@[i as int]),
                st0,
                mid,
                base_dir@,
                views(missing@),
            );
        }
    }
    assert(ss@.take(n as int) =~= ss@);
}

/// Validates a document whose directory is `base_dir`: every id is defined
/// once, and no referenced file is among `missing` (paths joined onto
/// `base_dir`, as `referenced_files` gives them).
pub fn validate(doc: &Document, base_dir: &str, missing: &Vec<String>) -> (r: Result<(), String>)
    ensures
        match (r, validation_result(*doc, base_dir@, views(missing@))) {
            (Ok(()), Ok(())) => true,
            (Err(m), Err(e)) => m@ == e,
            _ => false,
        },
{
    let mut ids = IdRegistry::new();
    let mut errors: Vec<String> = Vec::new();
    assert(views(errors@) =~= Seq::<Seq<char>>::empty());
    check_sections(&doc.document, base_dir, missing, &mut ids, &mut errors);
    if errors.len() == 0 {
        Ok(())
    } else {
        let mut msg = String::new();
        msg.append("Document validation failed:\n");
        push_join(&mut msg, &errors, "\n");
        Err(msg)
    }
}


// ───────────────────────────── referenced files ─────────────────────────────

/// The files among `refs`, joined onto `base`, in order.
pub open spec fn files_of(refs: Seq<Reference>, base: Seq<char>) -> Seq<Seq<char>>
    decreases refs.len(),
{
    if refs.len() == 0 {
        Seq::empty()
    } else {
        files_of(refs.drop_last(), base) + match refs.last() {
            Reference::File { path } => seq![join_path(base, path)],
            Reference::Id { .. } => Seq::empty(),
        }
    }
}

/// The files of two runs of references.
pub proof fn lemma_files_of_concat(a: Seq<Reference>, b: Seq<Reference>, base: Seq<char>)
    ensures
        files_of(a + b, base) == files_of(a, base) + files_of(b, base),
    decreases b.len(),
{
    if b.len() == 0 {
        assert(a + b =~= a);
        assert(files_of(a, base) + files_of(b, base) =~= files_of(a, base));
    } else {
        assert((a + b).drop_last() =~= a + b.drop_last());
        lemma_files_of_concat(a, b.drop_last(), base);
        assert(files_of(a + b, base) =~= files_of(a, base) + files_of(b, base));
    }
}

/// The files of a single reference.
pub proof fn lemma_files_of_one(r: Reference, base: Seq<char>)
    ensures
        files_of(seq![r], base) == match r {
            Reference::File { path } => seq![join_path(base, path)],
            Reference::Id { .. } => Seq::<Seq<char>>::empty(),
        },
{
    assert(seq![r].drop_last() =~= Seq::<Reference>::empty());
    assert(files_of(Seq::<Reference>::empty(), base) == Seq::<Seq<char>>::empty());
    assert(files_of(seq![r], base) =~= match r {
        Reference::File { path } => seq![join_path(base, path)],
        Reference::Id { .. } => Seq::<Seq<char>>::empty(),
    });
}

/// Bibliography entries refer to no files.
proof fn lemma_entries_no_files(entries: Seq<crate::ir::types::BibEntry>, base: Seq<char>)
    ensures
        files_of(entries_refs(entries), base) == Seq::<Seq<char>>::empty(),
    decreases entries.len(),
{
    if entries.len() > 0 {
        lemma_entries_no_files(entries.drop_last(), base);
        let last = seq![Reference::Id { id: entries.last().id@, kind: IdKind::BibEntry }];
        lemma_files_of_concat(entries_refs(entries.drop_last()), last, base);
        lemma_files_of_one(last[0], base);
        assert(last =~= seq![last[0]]);
        assert(files_of(entries_refs(entries), base) =~= Seq::<Seq<char>>::empty());
    }
}

/// Appends a file reference joined onto `base_dir`.
fn push_file(out: &mut Vec<String>, path: &str, base_dir: &str)
    ensures
        views(final(out)@) == views(old(out)@) + files_of(
            seq![Reference::File { path: path@ }],
            base_dir@,
        ),
{
    let full = join_to(base_dir, path);
    out.push(full);
    proof {
        lemma_files_of_one(Reference::File { path: path@ }, base_dir@);
    }
    assert(views(out@) =~= views(old(out)@) + seq![join_path(base_dir@, path@)]);
}

/// Appends the files of a figure group's pictures.
fn files_figures(out: &mut Vec<String>, figs: &Vec<SubFigure>, base_dir: &str)
    ensures
        views(final(out)@) == views(old(out)@) + files_of(figure_refs(figs@), base_dir@),
{
    let n = figs.len();
    for i in 0..n
        invariant
            n == figs.len(),
            views(out@) == views(old(out)@) + files_of(
                figure_refs(figs@.take(i as int)),
                base_dir@,
            ),
    {
        assert(figs@.take(i + 1).drop_last() =~= figs@.take(i as int));
        push_file(out, figs[i].path.as_str(), base_dir);
        proof {
            lemma_files_of_concat(
                figure_refs(figs@.take(i as int)),
                seq![Reference::File { path: figs@[i as int].path@ }],
                base_dir@,
            );
        }
    }
    assert(figs@.take(n as int) =~= figs@);
}

/// Appends the files of the nested blocks of a list.
fn files_items(out: &mut Vec<String>, items: &Vec<ListItem>, base_dir: &str)
    ensures
        views(final(out)@) == views(old(out)@) + files_of(items_refs(items@), base_dir@),
    decreases items, 0int,
{
    let n = items.len();
    for i in 0..n
        invariant
            n == items.len(),
            views(out@) == views(old(out)@) + files_of(
                items_refs(items@.take(i as int)),
                base_dir@,
            ),
    {
        assert(items@.take(i + 1).drop_last() =~= items@.take(i as int));
        match &items[i] {
            ListItem::Nested(nested) => {
                files_block(out, nested, base_dir);
            },
            ListItem::Text(_) => {},
        }
        proof {
            lemma_files_of_concat(
                items_refs(items@.take(i as int)),
                item_refs(items@[i as int]),
                base_dir@,
            );
        }
    }
    assert(items@.take(n as int) =~= items@);
}

/// Appends the files a block refers to.
fn files_block(out: &mut Vec<String>, block: &Block, base_dir: &str)
    ensures
        views(final(out)@) == views(old(out)@) + files_of(block_refs(*block), base_dir@),
    decreases block, 1int,
{
    let ghost before = views(out@);
    match block {
        Block::Figure { id, path, .. } => {
            push_file(out, path.as_str(), base_dir);
            proof {
                let a = seq![Reference::Id { id: id@, kind: IdKind::Figure }];
                let b = seq![Reference::File { path: path@ }];
                lemma_files_of_concat(a, b, base_dir@);
                lemma_files_of_one(a[0], base_dir@);
                assert(a =~= seq![a[0]]);
                assert(block_refs(*block) =~= a + b);
            }
        },
        Block::FigureGroup { id, figures, .. } => {
            files_figures(out, figures, base_dir);
            proof {
                let a = seq![Reference::Id { id: id@, kind: IdKind::FigureGroup }];
                lemma_files_of_concat(a, figure_refs(figures@), base_dir@);
                lemma_files_of_one(a[0], base_dir@);
                assert(a =~= seq![a[0]]);
            }
        },
        Block::Listing { id, source, .. } => {
            let ghost a = seq![Reference::Id { id: id@, kind: IdKind::Listing }];
            proof {
                lemma_files_of_one(a[0], base_dir@);
                assert(a =~= seq![a[0]]);
            }
            match source {
                ListingSource::File { path } => {
                    push_file(out, path.as_str(), base_dir);
                    proof {
                        lemma_files_of_concat(a, seq![Reference::File { path: path@ }], base_dir@);
                    }
                },
                ListingSource::Inline { .. } => {
                    assert(block_refs(*block) =~= a);
                },
            }
        },
        Block::Formula { id, .. } => {
            proof {
                match id {
                    Some(i) => {
                        lemma_files_of_one(Reference::Id { id: i@, kind: IdKind::Formula }, base_dir@);
                    },
                    None => {},
                }
            }
        },
        Block::Table { id, .. } => {
            proof {
                lemma_files_of_one(Reference::Id { id: id@, kind: IdKind::Table }, base_dir@);
            }
        },
        Block::List { items, .. } => {
            files_items(out, items, base_dir);
        },
        _ => {},
    }
    assert(views(out@) =~= before + files_of(block_refs(*block), base_dir@));
}

/// Appends the files of the blocks of a section body.
fn files_blocks(out: &mut Vec<String>, blocks: &Vec<Block>, base_dir: &str)
    ensures
        views(final(out)@) == views(old(out)@) + files_of(blocks_refs(blocks@), base_dir@),
{
    let n = blocks.len();
    for i in 0..n
        invariant
            n == blocks.len(),
            views(out@) == views(old(out)@) + files_of(
                blocks_refs(blocks@.take(i as int)),
                base_dir@,
            ),
    {
        assert(blocks@.take(i + 1).drop_last() =~= blocks@.take(i as int));
        files_block(out, &blocks[i], base_dir);
        proof {
            lemma_files_of_concat(
                blocks_refs(blocks@.take(i as int)),
                block_refs(blocks@[i as int]),
                base_dir@,
            );
        }
    }
    assert(blocks@.take(n as int) =~= blocks@);
}

/// Appends the files of a section and everything inside it.
fn files_section(out: &mut Vec<String>, section: &Section, base_dir: &str)
    ensures
        views(final(out)@) == views(old(out)@) + files_of(section_refs(*section), base_dir@),
    decreases section, 1int,
{
    let ghost head = seq![Reference::Id { id: section.id@, kind: IdKind::Section }];
    proof {
        lemma_files_of_one(head[0], base_dir@);
        assert(head =~= seq![head[0]]);
    }
    match &section.kind {
        SectionKind::Regular { body, subsections } => {
            files_blocks(out, body, base_dir);
            files_sections(out, subsections, base_dir);
            proof {
                lemma_files_of_concat(head, blocks_refs(body@), base_dir@);
                lemma_files_of_concat(
                    head + blocks_refs(body@),
                    sections_refs(subsections@),
                    base_dir@,
                );
                assert(head + blocks_refs(body@) + sections_refs(subsections@) =~= section_refs(
                    *section,
                ));
            }
        },
        SectionKind::Bibliography { entries } => {
            proof {
                lemma_entries_no_files(entries@, base_dir@);
                lemma_files_of_concat(head, entries_refs(entries@), base_dir@);
            }
        },
    }
}

/// Appends the files of sections, in order.
fn files_sections(out: &mut Vec<String>, ss: &Vec<Section>, base_dir: &str)
    ensures
        views(final(out)@) == views(old(out)@) + files_of(sections_refs(ss@), base_dir@),
    decreases ss, 0int,
{
    let n = ss.len();
    for i in 0..n
        invariant
            n == ss.len(),
            views(out@) == views(old(out)@) + files_of(
                sections_refs(ss@.take(i as int)),
                base_dir@,
            ),
    {
        assert(ss@.take(i + 1).drop_last() =~= ss@.take(i as int));
        files_section(out, &ss[i], base_dir);
        proof {
            lemma_files_of_concat(
                sections_refs(ss@.take(i as int)),
                section_refs(ss@[i as int]),
                base_dir@,
            );
        }
    }
    assert(ss@.take(n as int) =~= ss@);
}

/// The files a document refers to, joined onto its directory `base_dir`, in
/// document order.
pub fn referenced_files(doc: &Document, base_dir: &str) -> (r: Vec<String>)
    ensures
        views(r@) == files_of(sections_refs(doc.document@), base_dir@),
{
    let mut out: Vec<String> = Vec::new();
    assert(views(out@) =~= Seq::<Seq<char>>::empty());
    files_sections(&mut out, &doc.document, base_dir);
    out
}


// ───────────────────────────── import tags ─────────────────────────────

/// The first position `i >= from` where `p` occurs in `s`, or -1.
pub open spec fn find_pat(s: Seq<char>, p: Seq<char>, from: int) -> int
    decreases s.len() - from,
{
    if p.len() == 0 || from < 0 || from + p.len() > s.len() {
        -1
    } else if s.subrange(from, from + p.len()) == p {
        from
    } else {
        find_pat(s, p, from + 1)
    }
}

/// The path written after an import keyword: trimmed, then without quotes.
pub open spec fn clean_path(rest: Seq<char>) -> Seq<char> {
    trim_char(trim_char(trim_ws(rest), '"'), '\'')
}

/// What a YAML line says about imports.
pub ghost enum TagView {
    Plain,
    Bare { path: Seq<char>, indent: Seq<char> },
    Keyed { key: Seq<char>, path: Seq<char>, indent: Seq<char> },
}

/// The import tag of a line: `- !import P` or `!import P` (an item to
/// splice in), `KEY: !import P` (a value to nest under `KEY`), or none.
pub open spec fn tag_of(line: Seq<char>) -> TagView {
    let indent = leading_ws(line);
    let t = trim_ws(line);
    if starts_with(t, "- !import "@) {
        TagView::Bare { path: clean_path(t.skip(10)), indent }
    } else if starts_with(t, "!import "@) {
        TagView::Bare { path: clean_path(t.skip(8)), indent }
    } else {
        let k = find_pat(t, ": !import "@, 0);
        if k >= 0 {
            TagView::Keyed { key: t.take(k), path: clean_path(t.skip(k + 10)), indent }
        } else {
            TagView::Plain
        }
    }
}

/// The import tag of a YAML line.
pub enum ImportTag {
    /// A line without an import tag.
    Plain,
    Bare { path: String, indent: String },
    Keyed { key: String, path: String, indent: String },
}

impl View for ImportTag {
    type V = TagView;

    open spec fn view(&self) -> TagView {
        match self {
            ImportTag::Plain => TagView::Plain,
            ImportTag::Bare { path, indent } => TagView::Bare { path: path@, indent: indent@ },
            ImportTag::Keyed { key, path, indent } => TagView::Keyed {
                key: key@,
                path: path@,
                indent: indent@,
            },
        }
    }
}

/// The whitespace a line starts with.
pub fn leading_spaces(s: &str) -> (r: String)
    ensures
        r@ == leading_ws(s@),
{
    let v = to_chars(s);
    let a = skip_ws(&v, 0, v.len());
    assert(v@.subrange(0, v.len() as int) =~= s@);
    assert(v@.subrange(0, a as int) =~= s@.take(s@.len() - trim_ws_start_len(s@)));
    range_string(&v, 0, a)
}

/// The length of `s` once its leading whitespace is dropped.
pub open spec fn trim_ws_start_len(s: Seq<char>) -> int {
    crate::text::trim_start_ws(s).len() as int
}

/// The cleaned path in `v[lo..hi]`.
fn clean_range(v: &Vec<char>, lo: usize, hi: usize) -> (r: String)
    requires
        lo <= hi <= v.len(),
    ensures
        r@ == clean_path(v@.subrange(lo as int, hi as int)),
{
    let c1 = skip_ws(v, lo, hi);
    let c2 = back_ws(v, c1, hi);
    let d1 = skip_char(v, c1, c2, '"');
    let d2 = back_char(v, d1, c2, '"');
    let e1 = skip_char(v, d1, d2, '\'');
    let e2 = back_char(v, e1, d2, '\'');
    range_string(v, e1, e2)
}

/// Reads the import tag of a YAML line.
pub fn parse_import_tag(line: &str) -> (r: ImportTag)
    ensures
        r@ == tag_of(line@),
{
    proof {
        reveal_strlit("- !import ");
        reveal_strlit("!import ");
        reveal_strlit(": !import ");
    }
    let v = to_chars(line);
    let n = v.len();
    assert(v@.subrange(0, n as int) =~= line@);
    let a = skip_ws(&v, 0, n);
    let b = back_ws(&v, a, n);
    let ghost t = v@.subrange(a as int, b as int);
    assert(t == trim_ws(line@));
    let indent = range_string(&v, 0, a);
    assert(indent@ =~= leading_ws(line@));
    if crate::text::has_prefix(&v, a, b, "- !import ") {
        assert(t.skip(10) =~= v@.subrange(a + 10, b as int));
        let path = clean_range(&v, a + 10, b);
        return ImportTag::Bare { path, indent };
    }
    if crate::text::has_prefix(&v, a, b, "!import ") {
        assert(t.skip(8) =~= v@.subrange(a + 8, b as int));
        let path = clean_range(&v, a + 8, b);
        return ImportTag::Bare { path, indent };
    }
    let mut j = a;
    let mut found = false;
    while b - j >= 10 && !found
        invariant
            ": !import "@.len() == 10,
            a <= j <= b <= n,
            n == v.len(),
            t == v@.subrange(a as int, b as int),
            found ==> j + 10 <= b && find_pat(t, ": !import "@, 0) == j - a,
            !found ==> find_pat(t, ": !import "@, j - a) == find_pat(t, ": !import "@, 0),
        decreases b - j + (if found { 0int } else { 1int }),
    {
        assert(t.subrange(j - a, j - a + 10) =~= v@.subrange(j as int, j + 10));
        if range_eq(&v, j, j + 10, ": !import ") {
            found = true;
        } else {
            j = j + 1;
        }
    }
    if found {
        assert(t.take(j - a) =~= v@.subrange(a as int, j as int));
        assert(t.skip(j - a + 10) =~= v@.subrange(j + 10, b as int));
        let key = range_string(&v, a, j);
        let path = clean_range(&v, j + 10, b);
        ImportTag::Keyed { key, path, indent }
    } else {
        ImportTag::Plain
    }
}

// ───────────────────────────── splicing imports ─────────────────────────────

/// Each line indented by `indent` and two more spaces, each ended by a
/// newline.
pub open spec fn child_lines(ls: Seq<Seq<char>>, indent: Seq<char>) -> Seq<char>
    decreases ls.len(),
{
    if ls.len() == 0 {
        Seq::empty()
    } else {
        child_lines(ls.drop_last(), indent) + indent + "  "@ + ls.last() + "\n"@
    }
}

/// An imported text spliced in as a list item at `indent`: its first line
/// after `- `, the others indented under it.
pub open spec fn bare_text(indent: Seq<char>, imported: Seq<char>) -> Seq<char> {
    let ls = lines(imported);
    if ls.len() == 0 {
        Seq::empty()
    } else {
        indent + "- "@ + ls[0] + "\n"@ + child_lines(ls.drop_first(), indent)
    }
}

/// An imported text spliced in as the value of `key` at `indent`.
pub open spec fn keyed_text(indent: Seq<char>, key: Seq<char>, imported: Seq<char>) -> Seq<char> {
    indent + key + ":\n"@ + child_lines(lines(imported), indent)
}

/// The text made of `ls` with the `k`-th import tag replaced by the `k`-th
/// text of `imp`, or nothing when `imp` does not have one text per tag.
pub open spec fn resolve_lines(ls: Seq<Seq<char>>, imp: Seq<Seq<char>>) -> Option<Seq<char>>
    decreases ls.len(),
{
    if ls.len() == 0 {
        if imp.len() == 0 {
            Some(Seq::empty())
        } else {
            None
        }
    } else {
        match tag_of(ls[0]) {
            TagView::Plain => match resolve_lines(ls.drop_first(), imp) {
                Some(r) => Some(ls[0] + "\n"@ + r),
                None => None,
            },
            TagView::Bare { indent, .. } => if imp.len() == 0 {
                None
            } else {
                match resolve_lines(ls.drop_first(), imp.drop_first()) {
                    Some(r) => Some(bare_text(indent, imp[0]) + r),
                    None => None,
                }
            },
            TagView::Keyed { key, indent, .. } => if imp.len() == 0 {
                None
            } else {
                match resolve_lines(ls.drop_first(), imp.drop_first()) {
                    Some(r) => Some(keyed_text(indent, key, imp[0]) + r),
                    None => None,
                }
            },
        }
    }
}

/// The paths named by the import tags among `ls`, in order.
pub open spec fn import_paths_of(ls: Seq<Seq<char>>) -> Seq<Seq<char>>
    decreases ls.len(),
{
    if ls.len() == 0 {
        Seq::empty()
    } else {
        import_paths_of(ls.drop_last()) + match tag_of(ls.last()) {
            TagView::Plain => Seq::empty(),
            TagView::Bare { path, .. } => seq![path],
            TagView::Keyed { path, .. } => seq![path],
        }
    }
}

/// `prefix` put before an optional text.
pub open spec fn prepend(prefix: Seq<char>, o: Option<Seq<char>>) -> Option<Seq<char>> {
    match o {
        Some(r) => Some(prefix + r),
        None => None,
    }
}

/// Appends `lines(text)`, each indented by `indent` and two more spaces.
fn push_child_lines(out: &mut String, ls: &Vec<String>, from: usize, indent: &str)
    requires
        from <= ls.len(),
    ensures
        final(out)@ == old(out)@ + child_lines(views(ls@).skip(from as int), indent@),
{
    let n = ls.len();
    let ghost all = views(ls@).skip(from as int);
    let mut i = from;
    assert(all.take(0) =~= Seq::<Seq<char>>::empty());
    while i < n
        invariant
            from <= i <= n,
            n == ls.len(),
            all == views(ls@).skip(from as int),
            out@ == old(out)@ + child_lines(all.take(i - from), indent@),
        decreases n - i,
    {
        assert(all.take(i - from + 1).drop_last() =~= all.take(i - from));
        assert(all.take(i - from + 1).last() == ls@[i as int]@);
        out.append(indent);
        out.append("  ");
        out.append(ls[i].as_str());
        out.append("\n");
        i = i + 1;
    }
    assert(all.take(n - from) =~= all);
}

/// One step of splicing: the first line and the rest.
proof fn lemma_resolve_unfold(ls: Seq<Seq<char>>, imp: Seq<Seq<char>>)
    requires
        ls.len() > 0,
    ensures
        resolve_lines(ls, imp) == match tag_of(ls[0]) {
            TagView::Plain => prepend(ls[0] + "\n"@, resolve_lines(ls.drop_first(), imp)),
            TagView::Bare { indent, .. } => if imp.len() == 0 {
                None
            } else {
                prepend(bare_text(indent, imp[0]), resolve_lines(ls.drop_first(), imp.drop_first()))
            },
            TagView::Keyed { key, indent, .. } => if imp.len() == 0 {
                None
            } else {
                prepend(
                    keyed_text(indent, key, imp[0]),
                    resolve_lines(ls.drop_first(), imp.drop_first()),
                )
            },
        },
{
}

/// Putting two prefixes one after the other.
proof fn lemma_prepend_twice(a: Seq<char>, b: Seq<char>, o: Option<Seq<char>>)
    ensures
        prepend(a, prepend(b, o)) == prepend(a + b, o),
{
    match o {
        Some(x) => {
            assert(a + (b + x) =~= a + b + x);
        },
        None => {},
    }
}

/// Appends an imported text spliced in as a list item at `indent`.
fn push_bare(out: &mut String, indent: &str, text: &str)
    ensures
        final(out)@ == old(out)@ + bare_text(indent@, text@),
{
    let sub = split_lines(text);
    if sub.len() > 0 {
        out.append(indent);
        out.append("- ");
        out.append(sub[0].as_str());
        out.append("\n");
        push_child_lines(out, &sub, 1, indent);
        assert(views(sub@).skip(1) =~= views(sub@).drop_first());
    }
    assert(out@ =~= old(out)@ + bare_text(indent@, text@));
}

/// Appends an imported text spliced in as the value of `key` at `indent`.
fn push_keyed(out: &mut String, indent: &str, key: &str, text: &str)
    ensures
        final(out)@ == old(out)@ + keyed_text(indent@, key@, text@),
{
    let sub = split_lines(text);
    out.append(indent);
    out.append(key);
    out.append(":\n");
    push_child_lines(out, &sub, 0, indent);
    assert(views(sub@).skip(0) =~= views(sub@));
    assert(out@ =~= old(out)@ + keyed_text(indent@, key@, text@));
}

/// Splices the imported texts into `content`: the `k`-th import tag (in
/// line order) is replaced by `imported[k]`, every other line is kept, and
/// every line ends with a newline. Gives nothing when `imported` does not
/// hold exactly one text per tag.
pub fn resolve_imports(content: &str, imported: &Vec<String>) -> (r: Option<String>)
    ensures
        match r {
            Some(s) => resolve_lines(lines(content@), views(imported@)) == Some(s@),
            None => resolve_lines(lines(content@), views(imported@)) is None,
        },
{
    let ls = split_lines(content);
    let ghost all = lines(content@);
    let ghost imp = views(imported@);
    let n = ls.len();
    let m = imported.len();
    let mut out = String::new();
    let mut i: usize = 0;
    let mut j: usize = 0;
    assert(all.skip(0) =~= all);
    assert(imp.skip(0) =~= imp);
    assert(out@ =~= Seq::<char>::empty());
    proof {
        match resolve_lines(all, imp) {
            Some(x) => {
                assert(out@ + x =~= x);
            },
            None => {},
        }
    }
    while i < n
        invariant
            n == ls.len(),
            m == imported.len(),
            views(ls@) == all,
            all == lines(content@),
            imp == views(imported@),
            i <= n,
            j <= m,
            resolve_lines(all, imp) == prepend(
                out@,
                resolve_lines(all.skip(i as int), imp.skip(j as int)),
            ),
        decreases n - i,
    {
        let ghost rest = all.skip(i as int);
        let ghost irest = imp.skip(j as int);
        let ghost before = out@;
        proof {
            assert(rest[0] == ls@[i as int]@);
            assert(rest.drop_first() =~= all.skip(i + 1));
            lemma_resolve_unfold(rest, irest);
            if j < m {
                assert(irest[0] == imported@[j as int]@);
                assert(irest.drop_first() =~= imp.skip(j + 1));
            }
        }
        let tag = parse_import_tag(ls[i].as_str());
        match tag {
            ImportTag::Plain => {
                out.append(ls[i].as_str());
                out.append("\n");
                proof {
                    lemma_prepend_twice(
                        before,
                        ls@[i as int]@ + "\n"@,
                        resolve_lines(all.skip(i + 1), irest),
                    );
                    assert(before + (ls@[i as int]@ + "\n"@) =~= out@);
                }
                i = i + 1;
            },
            ImportTag::Bare { path: _, indent } => {
                if j == m {
                    return None;
                }
                push_bare(&mut out, indent.as_str(), imported[j].as_str());
                proof {
                    lemma_prepend_twice(
                        before,
                        bare_text(indent@, irest[0]),
                        resolve_lines(all.skip(i + 1), imp.skip(j + 1)),
                    );
                }
                i = i + 1;
                j = j + 1;
            },
            ImportTag::Keyed { key, path: _, indent } => {
                if j == m {
                    return None;
                }
                push_keyed(&mut out, indent.as_str(), key.as_str(), imported[j].as_str());
                proof {
                    lemma_prepend_twice(
                        before,
                        keyed_text(indent@, key@, irest[0]),
                        resolve_lines(all.skip(i + 1), imp.skip(j + 1)),
                    );
                }
                i = i + 1;
                j = j + 1;
            },
        }
    }
    assert(all.skip(n as int) =~= Seq::<Seq<char>>::empty());
    if j < m {
        return None;
    }
    assert(imp.skip(j as int) =~= Seq::<Seq<char>>::empty());
    assert(out@ + Seq::<char>::empty() =~= out@);
    Some(out)
}

/// The paths named by the import tags of `content`, in line order: the
/// files whose resolved texts `resolve_imports` takes.
pub fn import_paths(content: &str) -> (r: Vec<String>)
    ensures
        views(r@) == import_paths_of(lines(content@)),
{
    let ls = split_lines(content);
    let ghost all = lines(content@);
    let n = ls.len();
    let mut r: Vec<String> = Vec::new();
    for i in 0..n
        invariant
            n == ls.len(),
            views(ls@) == all,
            views(r@) == import_paths_of(all.take(i as int)),
    {
        assert(all.take(i + 1).drop_last() =~= all.take(i as int));
        assert(all.take(i + 1).last() == ls@[i as int]@);
        let ghost prev = views(r@);
        let tag = parse_import_tag(ls[i].as_str());
        match tag {
            ImportTag::Plain => {
                assert(views(r@) =~= prev + Seq::<Seq<char>>::empty());
            },
            ImportTag::Bare { path, .. } => {
                r.push(path);
                assert(views(r@) =~= prev + seq![views(r@).last()]);
            },
            ImportTag::Keyed { path, .. } => {
                r.push(path);
                assert(views(r@) =~= prev + seq![views(r@).last()]);
            },
        }
    }
    assert(all.take(n as int) =~= all);
    r
}


// ───────────────────────────── the import stack ─────────────────────────────

/// `s` without the entries equal to `p`.
pub open spec fn remove_all(s: Seq<Seq<char>>, p: Seq<char>) -> Seq<Seq<char>>
    decreases s.len(),
{
    if s.len() == 0 {
        Seq::empty()
    } else {
        remove_all(s.drop_last(), p) + if s.last() == p {
            Seq::empty()
        } else {
            seq![s.last()]
        }
    }
}

/// The message for a file imported while it is already being imported.
pub open spec fn cycle_msg(path: Seq<char>, stack: Seq<Seq<char>>) -> Seq<char> {
    "Cyclic import detected: '"@ + path + "' is already being imported.\nImport stack: "@ + join(
        stack,
        " -> "@,
    )
}

/// The files being imported, outermost first.
pub struct ImportStack {
    paths: Vec<String>,
}

impl View for ImportStack {
    type V = Seq<Seq<char>>;

    closed spec fn view(&self) -> Seq<Seq<char>> {
        views(self.paths@)
    }
}

impl ImportStack {
    /// A stack with no file on it.
    pub fn new() -> (r: ImportStack)
        ensures
            r@ == Seq::<Seq<char>>::empty(),
    {
        let r = ImportStack { paths: Vec::new() };
        assert(r@ =~= Seq::<Seq<char>>::empty());
        r
    }

    /// Starts importing `path`; refused when `path` is already being
    /// imported (a cycle), with a message that lists the stack.
    pub fn enter(&mut self, path: &str) -> (r: Result<(), String>)
        ensures
            old(self)@.contains(path@) ==> final(self)@ == old(self)@ && match r {
                Err(m) => m@ == cycle_msg(path@, old(self)@),
                Ok(_) => false,
            },
            !old(self)@.contains(path@) ==> final(self)@ == old(self)@.push(path@) && r is Ok,
    {
        let p = String::from_str(path);
        let n = self.paths.len();
        let mut k: usize = 0;
        while k < n
            invariant
                n == self.paths.len(),
                k <= n,
                p@ == path@,
                forall|m: int| 0 <= m < k ==> self@[m] != path@,
            decreases n - k,
        {
            if self.paths[k] == p {
                assert(self@[k as int] == path@);
                let mut msg = String::new();
                msg.append("Cyclic import detected: '");
                msg.append(path);
                msg.append("' is already being imported.\nImport stack: ");
                push_join(&mut msg, &self.paths, " -> ");
                return Err(msg);
            }
            k = k + 1;
        }
        self.paths.push(p);
        assert(self@ =~= old(self)@.push(path@));
        Ok(())
    }

    /// Ends importing `path`: it leaves the stack.
    pub fn leave(&mut self, path: &str)
        ensures
            final(self)@ == remove_all(old(self)@, path@),
    {
        let ghost before = self@;
        let p = String::from_str(path);
        let mut kept: Vec<String> = Vec::new();
        let n = self.paths.len();
        for k in 0..n
            invariant
                n == self.paths.len(),
                self@ == before,
                p@ == path@,
                views(kept@) == remove_all(before.take(k as int), path@),
        {
            assert(before.take(k + 1).drop_last() =~= before.take(k as int));
            assert(before.take(k + 1).last() == self.paths@[k as int]@);
            let ghost prev = views(kept@);
            if self.paths[k] != p {
                kept.push(self.paths[k].clone());
                assert(views(kept@) =~= prev + seq![before[k as int]]);
            } else {
                assert(views(kept@) =~= prev + Seq::<Seq<char>>::empty());
            }
        }
        assert(before.take(n as int) =~= before);
        self.paths = kept;
    }
}


// ───────────────────────────── laws ─────────────────────────────

/// No id is defined twice among `refs`.
pub open spec fn ids_distinct(refs: Seq<Reference>) -> bool {
    forall|i: int, j: int|
        0 <= i < j < refs.len() && #[trigger] refs[i] is Id && #[trigger] refs[j] is Id ==> refs[i]->id
            != refs[j]->id
}

/// No id of `refs` is among those already seen.
pub open spec fn ids_fresh(refs: Seq<Reference>, seen: Seq<(Seq<char>, IdKind)>) -> bool {
    forall|i: int|
        0 <= i < refs.len() && #[trigger] refs[i] is Id ==> lookup(seen, refs[i]->id) is None
}

/// Every file of `refs` is present.
pub open spec fn files_present(refs: Seq<Reference>, base: Seq<char>, missing: Seq<Seq<char>>) -> bool {
    forall|i: int|
        0 <= i < refs.len() && #[trigger] refs[i] is File ==> !missing.contains(
            join_path(base, refs[i]->path),
        )
}

/// Looking an id up after one more was remembered.
proof fn lemma_lookup_push(ids: Seq<(Seq<char>, IdKind)>, id: Seq<char>, kind: IdKind, x: Seq<char>)
    ensures
        (lookup(ids.push((id, kind)), x) is None) == (lookup(ids, x) is None && x != id),
    decreases ids.len(),
{
    if ids.len() > 0 {
        assert(ids.push((id, kind))[0] == ids[0]);
        assert(ids.push((id, kind)).drop_first() =~= ids.drop_first().push((id, kind)));
        lemma_lookup_push(ids.drop_first(), id, kind, x);
    } else {
        assert(ids.push((id, kind))[0] == (id, kind));
        assert(ids.push((id, kind)).drop_first() =~= Seq::<(Seq<char>, IdKind)>::empty());
        assert(lookup(Seq::<(Seq<char>, IdKind)>::empty(), x) is None);
    }
}

/// The checks only add errors, and add none exactly when every id is new
/// and defined once and every file is present.
proof fn lemma_check_all_clean(
    refs: Seq<Reference>,
    st: CheckState,
    base: Seq<char>,
    missing: Seq<Seq<char>>,
)
    ensures
        check_all(refs, st, base, missing).1.len() >= st.1.len(),
        (check_all(refs, st, base, missing).1.len() == st.1.len()) == (ids_distinct(refs)
            && ids_fresh(refs, st.0) && files_present(refs, base, missing)),
    decreases refs.len(),
{
    if refs.len() > 0 {
        let r = refs[0];
        let rest = refs.drop_first();
        let st2 = check_step(st, r, base, missing);
        lemma_check_all_clean(rest, st2, base, missing);
        assert forall|i: int| 0 <= i < rest.len() implies #[trigger] rest[i] == refs[i + 1] by {}
        match r {
            Reference::Id { id, kind } => {
                match lookup(st.0, id) {
                    Some(_) => {
                        assert(!ids_fresh(refs, st.0)) by {
                            assert(refs[0] is Id);
                        }
                    },
                    None => {
                        assert forall|x: Seq<char>|
                            #![trigger lookup(st.0.push((id, kind)), x)]
                            (lookup(st.0.push((id, kind)), x) is None) == (lookup(st.0, x) is None
                                && x != id) by {
                            lemma_lookup_push(st.0, id, kind, x);
                        }
                        if ids_distinct(refs) && ids_fresh(refs, st.0) && files_present(
                            refs,
                            base,
                            missing,
                        ) {
                            assert forall|i: int|
                                0 <= i < rest.len() && #[trigger] rest[i] is Id implies lookup(
                                st2.0,
                                rest[i]->id,
                            ) is None by {
                                assert(refs[i + 1] is Id);
                                assert(refs[0] is Id);
                                assert(lookup(st2.0, rest[i]->id) is None == (lookup(
                                    st.0,
                                    rest[i]->id,
                                ) is None && rest[i]->id != id));
                            }
                            assert forall|i: int, j: int|
                                0 <= i < j < rest.len() && #[trigger] rest[i] is Id
                                    && #[trigger] rest[j] is Id implies rest[i]->id
                                != rest[j]->id by {
                                assert(refs[i + 1] is Id && refs[j + 1] is Id);
                            }
                            assert forall|i: int|
                                0 <= i < rest.len() && #[trigger] rest[i] is File implies !missing.contains(
                                join_path(base, rest[i]->path),
                            ) by {
                                assert(refs[i + 1] is File);
                            }
                        }
                        if ids_distinct(rest) && ids_fresh(rest, st2.0) && files_present(
                            rest,
                            base,
                            missing,
                        ) {
                            assert forall|i: int, j: int|
                                0 <= i < j < refs.len() && #[trigger] refs[i] is Id
                                    && #[trigger] refs[j] is Id implies refs[i]->id
                                != refs[j]->id by {
                                if i == 0 {
                                    assert(rest[j - 1] is Id);
                                    assert(lookup(st2.0, rest[j - 1]->id) is None);
                                    assert(lookup(st2.0, rest[j - 1]->id) is None == (lookup(
                                        st.0,
                                        rest[j - 1]->id,
                                    ) is None && rest[j - 1]->id != id));
                                } else {
                                    assert(rest[i - 1] is Id && rest[j - 1] is Id);
                                }
                            }
                            assert forall|i: int|
                                0 <= i < refs.len() && #[trigger] refs[i] is Id implies lookup(
                                st.0,
                                refs[i]->id,
                            ) is None by {
                                if i > 0 {
                                    assert(rest[i - 1] is Id);
                                    assert(lookup(st2.0, rest[i - 1]->id) is None == (lookup(
                                        st.0,
                                        rest[i - 1]->id,
                                    ) is None && rest[i - 1]->id != id));
                                }
                            }
                            assert forall|i: int|
                                0 <= i < refs.len() && #[trigger] refs[i] is File implies !missing.contains(
                                join_path(base, refs[i]->path),
                            ) by {
                                assert(rest[i - 1] is File);
                            }
                        }
                    },
                }
            },
            Reference::File { path } => {
                if missing.contains(join_path(base, path)) {
                    assert(!files_present(refs, base, missing)) by {
                        assert(refs[0] is File);
                    }
                } else {
                    if ids_distinct(refs) && ids_fresh(refs, st.0) && files_present(
                        refs,
                        base,
                        missing,
                    ) {
                        assert forall|i: int|
                            0 <= i < rest.len() && #[trigger] rest[i] is Id implies lookup(
                            st2.0,
                            rest[i]->id,
                        ) is None by {
                            assert(refs[i + 1] is Id);
                        }
                        assert forall|i: int, j: int|
                            0 <= i < j < rest.len() && #[trigger] rest[i] is Id
                                && #[trigger] rest[j] is Id implies rest[i]->id
                            != rest[j]->id by {
                            assert(refs[i + 1] is Id && refs[j + 1] is Id);
                        }
                        assert forall|i: int|
                            0 <= i < rest.len() && #[trigger] rest[i] is File implies !missing.contains(
                            join_path(base, rest[i]->path),
                        ) by {
                            assert(refs[i + 1] is File);
                        }
                    }
                    if ids_distinct(rest) && ids_fresh(rest, st2.0) && files_present(
                        rest,
                        base,
                        missing,
                    ) {
                        assert forall|i: int, j: int|
                            0 <= i < j < refs.len() && #[trigger] refs[i] is Id
                                && #[trigger] refs[j] is Id implies refs[i]->id
                            != refs[j]->id by {
                            assert(i > 0);
                            assert(rest[i - 1] is Id && rest[j - 1] is Id);
                        }
                        assert forall|i: int|
                            0 <= i < refs.len() && #[trigger] refs[i] is Id implies lookup(
                            st.0,
                            refs[i]->id,
                        ) is None by {
                            assert(rest[i - 1] is Id);
                        }
                        assert forall|i: int|
                            0 <= i < refs.len() && #[trigger] refs[i] is File implies !missing.contains(
                            join_path(base, refs[i]->path),
                        ) by {
                            if i > 0 {
                                assert(rest[i - 1] is File);
                            }
                        }
                    }
                }
            },
        }
    }
}

/// A document passes validation exactly when no id in it is defined twice
/// and none of the files it includes is missing.
pub proof fn lemma_validation_passes_iff(doc: Document, base: Seq<char>, missing: Seq<Seq<char>>)
    ensures
        validation_result(doc, base, missing) is Ok <==> (ids_distinct(sections_refs(doc.document@))
            && files_present(sections_refs(doc.document@), base, missing)),
{
    let refs = sections_refs(doc.document@);
    let st: CheckState = (Seq::empty(), Seq::empty());
    lemma_check_all_clean(refs, st, base, missing);
    assert(ids_fresh(refs, st.0));
}


/// The path a line's tag names, if it has a tag.
pub open spec fn tag_paths(line: Seq<char>) -> Seq<Seq<char>> {
    match tag_of(line) {
        TagView::Plain => Seq::empty(),
        TagView::Bare { path, .. } => seq![path],
        TagView::Keyed { path, .. } => seq![path],
    }
}

/// The import paths of lines, split at the first line.
proof fn lemma_import_paths_first(ls: Seq<Seq<char>>)
    requires
        ls.len() > 0,
    ensures
        import_paths_of(ls) == tag_paths(ls[0]) + import_paths_of(ls.drop_first()),
    decreases ls.len(),
{
    if ls.len() == 1 {
        assert(ls.drop_last() =~= Seq::<Seq<char>>::empty());
        assert(ls.drop_first() =~= Seq::<Seq<char>>::empty());
        assert(import_paths_of(ls) =~= tag_paths(ls[0]) + import_paths_of(ls.drop_first()));
    } else {
        lemma_import_paths_first(ls.drop_last());
        assert(ls.drop_last().drop_first() =~= ls.drop_first().drop_last());
        assert(ls.drop_last()[0] == ls[0]);
        assert(ls.drop_first().last() == ls.last());
        assert(import_paths_of(ls) =~= tag_paths(ls[0]) + import_paths_of(ls.drop_first()));
    }
}

/// Splicing succeeds exactly when there is one imported text per import
/// tag.
pub proof fn lemma_resolve_needs_one_text_per_tag(ls: Seq<Seq<char>>, imp: Seq<Seq<char>>)
    ensures
        resolve_lines(ls, imp) is Some <==> imp.len() == import_paths_of(ls).len(),
    decreases ls.len(),
{
    if ls.len() == 0 {
    } else {
        lemma_import_paths_first(ls);
        lemma_resolve_unfold(ls, imp);
        match tag_of(ls[0]) {
            TagView::Plain => {
                lemma_resolve_needs_one_text_per_tag(ls.drop_first(), imp);
            },
            _ => {
                if imp.len() > 0 {
                    lemma_resolve_needs_one_text_per_tag(ls.drop_first(), imp.drop_first());
                }
            },
        }
    }
}

/// Lines, each followed by a newline.
pub open spec fn unlines(ls: Seq<Seq<char>>) -> Seq<char>
    decreases ls.len(),
{
    if ls.len() == 0 {
        Seq::empty()
    } else {
        ls[0] + "\n"@ + unlines(ls.drop_first())
    }
}

/// Text without import tags comes back line by line, each line ended by a
/// newline.
pub proof fn lemma_resolve_without_tags(ls: Seq<Seq<char>>)
    requires
        import_paths_of(ls).len() == 0,
    ensures
        resolve_lines(ls, Seq::empty()) == Some(unlines(ls)),
    decreases ls.len(),
{
    if ls.len() > 0 {
        lemma_import_paths_first(ls);
        lemma_resolve_unfold(ls, Seq::empty());
        lemma_resolve_without_tags(ls.drop_first());
        assert(ls[0] + "\n"@ + unlines(ls.drop_first()) =~= unlines(ls));
    }
}

/// Removing a path from a stack that does not hold it leaves the stack as
/// it is.
proof fn lemma_remove_absent(s: Seq<Seq<char>>, p: Seq<char>)
    requires
        !s.contains(p),
    ensures
        remove_all(s, p) == s,
    decreases s.len(),
{
    if s.len() > 0 {
        assert(!s.drop_last().contains(p)) by {
            if s.drop_last().contains(p) {
                let k = choose|k: int| 0 <= k < s.drop_last().len() && s.drop_last()[k] == p;
                assert(s[k] == p);
            }
        }
        lemma_remove_absent(s.drop_last(), p);
        assert(s.last() != p) by {
            assert(s[s.len() - 1] == s.last());
        }
        assert(s.drop_last() + seq![s.last()] =~= s);
    }
}

/// Entering a file that is not being imported and then leaving it gives
/// back the stack as it was.
pub proof fn lemma_enter_then_leave(stack: Seq<Seq<char>>, path: Seq<char>)
    requires
        !stack.contains(path),
    ensures
        remove_all(stack.push(path), path) == stack,
{
    assert(stack.push(path).drop_last() =~= stack);
    lemma_remove_absent(stack, path);
    assert(stack + Seq::<Seq<char>>::empty() =~= stack);
}

/// A stack built by successful entries never holds a path twice: entering
/// keeps it so, and so does leaving.
pub proof fn lemma_stack_stays_duplicate_free(stack: Seq<Seq<char>>, path: Seq<char>)
    requires
        stack.no_duplicates(),
    ensures
        !stack.contains(path) ==> stack.push(path).no_duplicates(),
        remove_all(stack, path).no_duplicates(),
    decreases stack.len(),
{
    if !stack.contains(path) {
        assert forall|i: int, j: int|
            0 <= i < stack.push(path).len() && 0 <= j < stack.push(path).len() && i != j implies stack.push(path)[i]
            != stack.push(path)[j] by {
            if i == stack.len() {
                assert(stack[j] != path);
            } else if j == stack.len() {
                assert(stack[i] != path);
            }
        }
    }
    if stack.len() > 0 {
        let init = stack.drop_last();
        assert(init.no_duplicates()) by {
            assert forall|i: int, j: int|
                0 <= i < init.len() && 0 <= j < init.len() && i != j implies init[i] != init[j] by {
                assert(init[i] == stack[i] && init[j] == stack[j]);
            }
        }
        lemma_stack_stays_duplicate_free(init, path);
        lemma_remove_subset(init, path);
        let r = remove_all(init, path);
        if stack.last() != path {
            assert(!r.contains(stack.last())) by {
                if r.contains(stack.last()) {
                    let k = choose|k: int| 0 <= k < r.len() && r[k] == stack.last();
                    assert(init.contains(r[k]));
                    let m = choose|m: int| 0 <= m < init.len() && init[m] == r[k];
                    assert(stack[m] == stack[stack.len() - 1]);
                }
            }
            assert forall|i: int, j: int|
                0 <= i < (r + seq![stack.last()]).len() && 0 <= j < (r + seq![stack.last()]).len() && i
                    != j implies (r + seq![stack.last()])[i] != (r + seq![stack.last()])[j] by {
                if i == r.len() {
                    assert(r[j] != stack.last());
                } else if j == r.len() {
                    assert(r[i] != stack.last());
                } else {
                    assert((r + seq![stack.last()])[i] == r[i]);
                    assert((r + seq![stack.last()])[j] == r[j]);
                }
            }
        } else {
            assert(r + Seq::<Seq<char>>::empty() =~= r);
        }
    }
}

/// What is left after removing comes from the stack.
proof fn lemma_remove_subset(s: Seq<Seq<char>>, p: Seq<char>)
    ensures
        forall|x: Seq<char>| #[trigger] remove_all(s, p).contains(x) ==> s.contains(x),
    decreases s.len(),
{
    if s.len() > 0 {
        lemma_remove_subset(s.drop_last(), p);
        assert forall|x: Seq<char>| #[trigger] remove_all(s, p).contains(x) implies s.contains(x) by {
            let r = remove_all(s, p);
            let k = choose|k: int| 0 <= k < r.len() && r[k] == x;
            let init = remove_all(s.drop_last(), p);
            if k < init.len() {
                assert(init[k] == x);
                assert(init.contains(x));
                let m = choose|m: int| 0 <= m < s.drop_last().len() && s.drop_last()[m] == x;
                assert(s[m] == x);
            } else {
                assert(x == s.last());
                assert(s[s.len() - 1] == x);
            }
        }
    }
}


/// `figure_refs` is the concatenation of the pieces of its items.
proof fn lemma_figure_refs_pieces(s: Seq<SubFigure>, g: spec_fn(SubFigure) -> Seq<Reference>)
    requires
        forall|y: SubFigure| #[trigger] g(y) == seq![Reference::File { path: y.path@ }],
    ensures
        figure_refs(s) == concat_map(s, g),
    decreases s.len(),
{
    if s.len() > 0 {
        lemma_figure_refs_pieces(s.drop_last(), g);
    }
}

/// The files of a figure group keep the order of its pictures: the result for two runs of items
/// is the result for the first run
/// followed by the result for the second, and the result for one item is
/// that picture's file.
pub proof fn lemma_figure_refs_in_order(a: Seq<SubFigure>, b: Seq<SubFigure>, x: SubFigure)
    ensures
        figure_refs(a + b) == figure_refs(a) + figure_refs(b),
        figure_refs(seq![x]) == seq![Reference::File { path: x.path@ }],
{
    let g = |y: SubFigure| seq![Reference::File { path: y.path@ }];
    lemma_figure_refs_pieces(a, g);
    lemma_figure_refs_pieces(b, g);
    lemma_figure_refs_pieces(a + b, g);
    lemma_figure_refs_pieces(seq![x], g);
    lemma_concat_map_append(a, b, g);
    lemma_concat_map_single(x, g);
}

/// The files of a figure group keep the order of its pictures: the piece of the `k`-th item
/// stands at its place, between the
/// result for the items before it and the result for the items after it.
pub proof fn lemma_figure_refs_at(s: Seq<SubFigure>, k: int)
    requires
        0 <= k < s.len(),
    ensures
        figure_refs(s) == figure_refs(s.take(k)) + seq![Reference::File { path: s[k].path@ }] + figure_refs(s.skip(k + 1)),
{
    let g = |y: SubFigure| seq![Reference::File { path: y.path@ }];
    lemma_figure_refs_pieces(s, g);
    lemma_figure_refs_pieces(s.take(k), g);
    lemma_figure_refs_pieces(s.skip(k + 1), g);
    lemma_concat_map_at(s, k, g);
}

/// `items_refs` is the concatenation of the pieces of its items.
proof fn lemma_items_refs_pieces(s: Seq<ListItem>, g: spec_fn(ListItem) -> Seq<Reference>)
    requires
        forall|y: ListItem| #[trigger] g(y) == item_refs(y),
    ensures
        items_refs(s) == concat_map(s, g),
    decreases s.len(),
{
    if s.len() > 0 {
        lemma_items_refs_pieces(s.drop_last(), g);
    }
}

/// The references of a list keep the order of its items: the result for two runs of items is
/// the result for the first run
/// followed by the result for the second, and the result for one item is
/// the references of that item.
pub proof fn lemma_items_refs_in_order(a: Seq<ListItem>, b: Seq<ListItem>, x: ListItem)
    ensures
        items_refs(a + b) == items_refs(a) + items_refs(b),
        items_refs(seq![x]) == item_refs(x),
{
    let g = |y: ListItem| item_refs(y);
    lemma_items_refs_pieces(a, g);
    lemma_items_refs_pieces(b, g);
    lemma_items_refs_pieces(a + b, g);
    lemma_items_refs_pieces(seq![x], g);
    lemma_concat_map_append(a, b, g);
    lemma_concat_map_single(x, g);
}

/// The references of a list keep the order of its items: the piece of the `k`-th item stands at
/// its place, between the
/// result for the items before it and the result for the items after it.
pub proof fn lemma_items_refs_at(s: Seq<ListItem>, k: int)
    requires
        0 <= k < s.len(),
    ensures
        items_refs(s) == items_refs(s.take(k)) + item_refs(s[k]) + items_refs(s.skip(k + 1)),
{
    let g = |y: ListItem| item_refs(y);
    lemma_items_refs_pieces(s, g);
    lemma_items_refs_pieces(s.take(k), g);
    lemma_items_refs_pieces(s.skip(k + 1), g);
    lemma_concat_map_at(s, k, g);
}

/// `blocks_refs` is the concatenation of the pieces of its items.
proof fn lemma_blocks_refs_pieces(s: Seq<Block>, g: spec_fn(Block) -> Seq<Reference>)
    requires
        forall|y: Block| #[trigger] g(y) == block_refs(y),
    ensures
        blocks_refs(s) == concat_map(s, g),
    decreases s.len(),
{
    if s.len() > 0 {
        lemma_blocks_refs_pieces(s.drop_last(), g);
    }
}

/// The references of a section body keep the order of its blocks: the result for two runs of
/// items is the result for the first run
/// followed by the result for the second, and the result for one item is
/// the references of that block.
pub proof fn lemma_blocks_refs_in_order(a: Seq<Block>, b: Seq<Block>, x: Block)
    ensures
        blocks_refs(a + b) == blocks_refs(a) + blocks_refs(b),
        blocks_refs(seq![x]) == block_refs(x),
{
    let g = |y: Block| block_refs(y);
    lemma_blocks_refs_pieces(a, g);
    lemma_blocks_refs_pieces(b, g);
    lemma_blocks_refs_pieces(a + b, g);
    lemma_blocks_refs_pieces(seq![x], g);
    lemma_concat_map_append(a, b, g);
    lemma_concat_map_single(x, g);
}

/// The references of a section body keep the order of its blocks: the piece of the `k`-th item
/// stands at its place, between the
/// result for the items before it and the result for the items after it.
pub proof fn lemma_blocks_refs_at(s: Seq<Block>, k: int)
    requires
        0 <= k < s.len(),
    ensures
        blocks_refs(s) == blocks_refs(s.take(k)) + block_refs(s[k]) + blocks_refs(s.skip(k + 1)),
{
    let g = |y: Block| block_refs(y);
    lemma_blocks_refs_pieces(s, g);
    lemma_blocks_refs_pieces(s.take(k), g);
    lemma_blocks_refs_pieces(s.skip(k + 1), g);
    lemma_concat_map_at(s, k, g);
}

/// `entries_refs` is the concatenation of the pieces of its items.
proof fn lemma_entries_refs_pieces(s: Seq<crate::ir::types::BibEntry>, g: spec_fn(crate::ir::types::BibEntry) -> Seq<Reference>)
    requires
        forall|y: crate::ir::types::BibEntry| #[trigger] g(y) == seq![Reference::Id { id: y.id@, kind: IdKind::BibEntry }],
    ensures
        entries_refs(s) == concat_map(s, g),
    decreases s.len(),
{
    if s.len() > 0 {
        lemma_entries_refs_pieces(s.drop_last(), g);
    }
}

/// The ids of a bibliography keep the order of its entries: the result for two runs of items is
/// the result for the first run
/// followed by the result for the second, and the result for one item is
/// that entry's id.
pub proof fn lemma_entries_refs_in_order(a: Seq<crate::ir::types::BibEntry>, b: Seq<crate::ir::types::BibEntry>, x: crate::ir::types::BibEntry)
    ensures
        entries_refs(a + b) == entries_refs(a) + entries_refs(b),
        entries_refs(seq![x]) == seq![Reference::Id { id: x.id@, kind: IdKind::BibEntry }],
{
    let g = |y: crate::ir::types::BibEntry| seq![Reference::Id { id: y.id@, kind: IdKind::BibEntry }];
    lemma_entries_refs_pieces(a, g);
    lemma_entries_refs_pieces(b, g);
    lemma_entries_refs_pieces(a + b, g);
    lemma_entries_refs_pieces(seq![x], g);
    lemma_concat_map_append(a, b, g);
    lemma_concat_map_single(x, g);
}

/// The ids of a bibliography keep the order of its entries: the piece of the `k`-th item stands
/// at its place, between the
/// result for the items before it and the result for the items after it.
pub proof fn lemma_entries_refs_at(s: Seq<crate::ir::types::BibEntry>, k: int)
    requires
        0 <= k < s.len(),
    ensures
        entries_refs(s) == entries_refs(s.take(k)) + seq![Reference::Id { id: s[k].id@, kind: IdKind::BibEntry }] + entries_refs(s.skip(k + 1)),
{
    let g = |y: crate::ir::types::BibEntry| seq![Reference::Id { id: y.id@, kind: IdKind::BibEntry }];
    lemma_entries_refs_pieces(s, g);
    lemma_entries_refs_pieces(s.take(k), g);
    lemma_entries_refs_pieces(s.skip(k + 1), g);
    lemma_concat_map_at(s, k, g);
}

/// `sections_refs` is the concatenation of the pieces of its items.
proof fn lemma_sections_refs_pieces(s: Seq<Section>, g: spec_fn(Section) -> Seq<Reference>)
    requires
        forall|y: Section| #[trigger] g(y) == section_refs(y),
    ensures
        sections_refs(s) == concat_map(s, g),
    decreases s.len(),
{
    if s.len() > 0 {
        lemma_sections_refs_pieces(s.drop_last(), g);
    }
}

/// The references of sections keep the order of the sections: the result for two runs of items
/// is the result for the first run
/// followed by the result for the second, and the result for one item is
/// the references of that section.
pub proof fn lemma_sections_refs_in_order(a: Seq<Section>, b: Seq<Section>, x: Section)
    ensures
        sections_refs(a + b) == sections_refs(a) + sections_refs(b),
        sections_refs(seq![x]) == section_refs(x),
{
    let g = |y: Section| section_refs(y);
    lemma_sections_refs_pieces(a, g);
    lemma_sections_refs_pieces(b, g);
    lemma_sections_refs_pieces(a + b, g);
    lemma_sections_refs_pieces(seq![x], g);
    lemma_concat_map_append(a, b, g);
    lemma_concat_map_single(x, g);
}

/// The references of sections keep the order of the sections: the piece of the `k`-th item
/// stands at its place, between the
/// result for the items before it and the result for the items after it.
pub proof fn lemma_sections_refs_at(s: Seq<Section>, k: int)
    requires
        0 <= k < s.len(),
    ensures
        sections_refs(s) == sections_refs(s.take(k)) + section_refs(s[k]) + sections_refs(s.skip(k + 1)),
{
    let g = |y: Section| section_refs(y);
    lemma_sections_refs_pieces(s, g);
    lemma_sections_refs_pieces(s.take(k), g);
    lemma_sections_refs_pieces(s.skip(k + 1), g);
    lemma_concat_map_at(s, k, g);
}

/// `files_of` is the concatenation of the pieces of its items.
proof fn lemma_files_of_pieces(s: Seq<Reference>, base: Seq<char>, g: spec_fn(Reference) -> Seq<Seq<char>>)
    requires
        forall|y: Reference| #[trigger] g(y) == match y { Reference::File { path } => seq![join_path(base, path)], Reference::Id { .. } => Seq::<Seq<char>>::empty() },
    ensures
        files_of(s, base) == concat_map(s, g),
    decreases s.len(),
{
    if s.len() > 0 {
        lemma_files_of_pieces(s.drop_last(), base, g);
    }
}

/// The referenced files keep the order of the references: the result for two runs of items is
/// the result for the first run
/// followed by the result for the second, and the result for one item is
/// its joined path when it is a file, and nothing when it is an id.
pub proof fn lemma_files_of_in_order(a: Seq<Reference>, b: Seq<Reference>, x: Reference, base: Seq<char>)
    ensures
        files_of(a + b, base) == files_of(a, base) + files_of(b, base),
        files_of(seq![x], base) == match x { Reference::File { path } => seq![join_path(base, path)], Reference::Id { .. } => Seq::<Seq<char>>::empty() },
{
    let g = |y: Reference| match y { Reference::File { path } => seq![join_path(base, path)], Reference::Id { .. } => Seq::<Seq<char>>::empty() };
    lemma_files_of_pieces(a, base, g);
    lemma_files_of_pieces(b, base, g);
    lemma_files_of_pieces(a + b, base, g);
    lemma_files_of_pieces(seq![x], base, g);
    lemma_concat_map_append(a, b, g);
    lemma_concat_map_single(x, g);
}

/// The referenced files keep the order of the references: the piece of the `k`-th item stands
/// at its place, between the
/// result for the items before it and the result for the items after it.
pub proof fn lemma_files_of_at(s: Seq<Reference>, k: int, base: Seq<char>)
    requires
        0 <= k < s.len(),
    ensures
        files_of(s, base) == files_of(s.take(k), base) + match s[k] { Reference::File { path } => seq![join_path(base, path)], Reference::Id { .. } => Seq::<Seq<char>>::empty() } + files_of(s.skip(k + 1), base),
{
    let g = |y: Reference| match y { Reference::File { path } => seq![join_path(base, path)], Reference::Id { .. } => Seq::<Seq<char>>::empty() };
    lemma_files_of_pieces(s, base, g);
    lemma_files_of_pieces(s.take(k), base, g);
    lemma_files_of_pieces(s.skip(k + 1), base, g);
    lemma_concat_map_at(s, k, g);
}

/// `import_paths_of` is the concatenation of the pieces of its items.
proof fn lemma_import_paths_of_pieces(s: Seq<Seq<char>>, g: spec_fn(Seq<char>) -> Seq<Seq<char>>)
    requires
        forall|y: Seq<char>| #[trigger] g(y) == tag_paths(y),
    ensures
        import_paths_of(s) == concat_map(s, g),
    decreases s.len(),
{
    if s.len() > 0 {
        lemma_import_paths_of_pieces(s.drop_last(), g);
    }
}

/// The import paths keep the order of the lines: the result for two runs of items is the result
/// for the first run
/// followed by the result for the second, and the result for one item is
/// the path its tag names, or nothing without a tag.
pub proof fn lemma_import_paths_of_in_order(a: Seq<Seq<char>>, b: Seq<Seq<char>>, x: Seq<char>)
    ensures
        import_paths_of(a + b) == import_paths_of(a) + import_paths_of(b),
        import_paths_of(seq![x]) == tag_paths(x),
{
    let g = |y: Seq<char>| tag_paths(y);
    lemma_import_paths_of_pieces(a, g);
    lemma_import_paths_of_pieces(b, g);
    lemma_import_paths_of_pieces(a + b, g);
    lemma_import_paths_of_pieces(seq![x], g);
    lemma_concat_map_append(a, b, g);
    lemma_concat_map_single(x, g);
}

/// The import paths keep the order of the lines: the piece of the `k`-th item stands at its
/// place, between the
/// result for the items before it and the result for the items after it.
pub proof fn lemma_import_paths_of_at(s: Seq<Seq<char>>, k: int)
    requires
        0 <= k < s.len(),
    ensures
        import_paths_of(s) == import_paths_of(s.take(k)) + tag_paths(s[k]) + import_paths_of(s.skip(k + 1)),
{
    let g = |y: Seq<char>| tag_paths(y);
    lemma_import_paths_of_pieces(s, g);
    lemma_import_paths_of_pieces(s.take(k), g);
    lemma_import_paths_of_pieces(s.skip(k + 1), g);
    lemma_concat_map_at(s, k, g);
}

/// `remove_all` is the concatenation of the pieces of its items.
proof fn lemma_remove_all_pieces(s: Seq<Seq<char>>, p: Seq<char>, g: spec_fn(Seq<char>) -> Seq<Seq<char>>)
    requires
        forall|y: Seq<char>| #[trigger] g(y) == if y == p { Seq::<Seq<char>>::empty() } else { seq![y] },
    ensures
        remove_all(s, p) == concat_map(s, g),
    decreases s.len(),
{
    if s.len() > 0 {
        lemma_remove_all_pieces(s.drop_last(), p, g);
    }
}

/// Leaving the stack keeps the order of the other entries: the result for two runs of items is
/// the result for the first run
/// followed by the result for the second, and the result for one item is
/// nothing when it is the path left and the entry itself otherwise.
pub proof fn lemma_remove_all_in_order(a: Seq<Seq<char>>, b: Seq<Seq<char>>, x: Seq<char>, p: Seq<char>)
    ensures
        remove_all(a + b, p) == remove_all(a, p) + remove_all(b, p),
        remove_all(seq![x], p) == if x == p { Seq::<Seq<char>>::empty() } else { seq![x] },
{
    let g = |y: Seq<char>| if y == p { Seq::<Seq<char>>::empty() } else { seq![y] };
    lemma_remove_all_pieces(a, p, g);
    lemma_remove_all_pieces(b, p, g);
    lemma_remove_all_pieces(a + b, p, g);
    lemma_remove_all_pieces(seq![x], p, g);
    lemma_concat_map_append(a, b, g);
    lemma_concat_map_single(x, g);
}

/// Leaving the stack keeps the order of the other entries: the piece of the `k`-th item stands
/// at its place, between the
/// result for the items before it and the result for the items after it.
pub proof fn lemma_remove_all_at(s: Seq<Seq<char>>, k: int, p: Seq<char>)
    requires
        0 <= k < s.len(),
    ensures
        remove_all(s, p) == remove_all(s.take(k), p) + if s[k] == p { Seq::<Seq<char>>::empty() } else { seq![s[k]] } + remove_all(s.skip(k + 1), p),
{
    let g = |y: Seq<char>| if y == p { Seq::<Seq<char>>::empty() } else { seq![y] };
    lemma_remove_all_pieces(s, p, g);
    lemma_remove_all_pieces(s.take(k), p, g);
    lemma_remove_all_pieces(s.skip(k + 1), p, g);
    lemma_concat_map_at(s, k, g);
}

/// `child_lines` is the concatenation of the pieces of its items.
proof fn lemma_child_lines_pieces(s: Seq<Seq<char>>, indent: Seq<char>, g: spec_fn(Seq<char>) -> Seq<char>)
    requires
        forall|y: Seq<char>| #[trigger] g(y) == indent + "  "@ + y + "\n"@,
    ensures
        child_lines(s, indent) == concat_map(s, g),
    decreases s.len(),
{
    if s.len() > 0 {
        lemma_child_lines_pieces(s.drop_last(), indent, g);
    }
}

/// Indented lines keep their order: the result for two runs of items is the result for the
/// first run
/// followed by the result for the second, and the result for one item is
/// that line indented by `indent` and two spaces, with a newline.
pub proof fn lemma_child_lines_in_order(a: Seq<Seq<char>>, b: Seq<Seq<char>>, x: Seq<char>, indent: Seq<char>)
    ensures
        child_lines(a + b, indent) == child_lines(a, indent) + child_lines(b, indent),
        child_lines(seq![x], indent) == indent + "  "@ + x + "\n"@,
{
    let g = |y: Seq<char>| indent + "  "@ + y + "\n"@;
    lemma_child_lines_pieces(a, indent, g);
    lemma_child_lines_pieces(b, indent, g);
    lemma_child_lines_pieces(a + b, indent, g);
    lemma_child_lines_pieces(seq![x], indent, g);
    lemma_concat_map_append(a, b, g);
    lemma_concat_map_single(x, g);
}

/// Indented lines keep their order: the piece of the `k`-th item stands at its place, between the
/// result for the items before it and the result for the items after it.
pub proof fn lemma_child_lines_at(s: Seq<Seq<char>>, k: int, indent: Seq<char>)
    requires
        0 <= k < s.len(),
    ensures
        child_lines(s, indent) == child_lines(s.take(k), indent) + indent + "  "@ + s[k] + "\n"@ + child_lines(s.skip(k + 1), indent),
{
    let g = |y: Seq<char>| indent + "  "@ + y + "\n"@;
    lemma_child_lines_pieces(s, indent, g);
    lemma_child_lines_pieces(s.take(k), indent, g);
    lemma_child_lines_pieces(s.skip(k + 1), indent, g);
    lemma_concat_map_at(s, k, g);
}

} // verus!
