//! The file that fixes the order of the parents of some commits.
//!
//! Each line reads `HG_CS_ID P1_CS_ID [P2_CS_ID]`: a Mercurial changeset and
//! the parents it must have, in that order. Mercurial ignores the order of the
//! parents of a merge commit while Mononoke does not, so the same Mercurial
//! commit could otherwise get different bonsai hashes.
//!
//! Reading the file goes in two steps. `read_fixed_parent_order_lines` splits
//! the text into lines and fields; the fields are then parsed as changeset ids,
//! and `assemble_fixed_parent_order` checks the lines and builds the map from
//! each changeset to its parents.

use vstd::prelude::*;
use vstd::string::StringSliceAdditionalSpecFns;
use vstd::utf8::{decode_utf8, valid_utf8};

use crate::ids::HgChangesetId;
use crate::text::{lemma_split_pieces_concat, lemma_split_pieces_len, push_char, split_pieces, utf8_text};

verus! {

/// One non-empty line of the file, split into its space-separated fields.
#[derive(Debug, Clone)]
pub struct ParentOrderLine {
    /// The first field: the changeset whose parents are fixed.
    pub child: String,
    /// The next fields, at most two: its parents in order.
    pub parents: Vec<String>,
    /// Whether a further field follows the two parents.
    pub extra_parent: bool,
}

/// What a `ParentOrderLine` holds, as character sequences.
pub struct ParentOrderLineView {
    pub child: Seq<char>,
    pub parents: Seq<Seq<char>>,
    pub extra_parent: bool,
}

/// The texts of a list of strings.
pub open spec fn texts_of(texts: Seq<String>) -> Seq<Seq<char>> {
    texts.map_values(|text: String| text@)
}

impl View for ParentOrderLine {
    type V = ParentOrderLineView;

    open spec fn view(&self) -> ParentOrderLineView {
        ParentOrderLineView {
            child: self.child@,
            parents: texts_of(self.parents@),
            extra_parent: self.extra_parent,
        }
    }
}

/// The views of a list of lines.
pub open spec fn lines_view(lines: Seq<ParentOrderLine>) -> Seq<ParentOrderLineView> {
    lines.map_values(|line: ParentOrderLine| line@)
}

/// The line made of the given fields (at least one): the first is the child,
/// up to two more are its parents, and any further field is noted.
pub open spec fn line_of_fields(fields: Seq<Seq<char>>) -> ParentOrderLineView {
    ParentOrderLineView {
        child: fields[0],
        parents: fields.subrange(1, if fields.len() < 3 { fields.len() as int } else { 3 }),
        extra_parent: fields.len() > 3,
    }
}

/// The lines of the file: each non-empty line (text between two `'\n'`) split
/// on single spaces.
pub open spec fn parent_order_lines(lines: Seq<Seq<char>>) -> Seq<ParentOrderLineView>
    decreases lines.len(),
{
    if lines.len() == 0 {
        Seq::empty()
    } else {
        let before = parent_order_lines(lines.drop_last());
        if lines.last().len() == 0 {
            before
        } else {
            before.push(line_of_fields(split_pieces(lines.last(), ' ')))
        }
    }
}

/// The lines of two runs of text lines are those of the first run followed by
/// those of the second.
pub proof fn lemma_parent_order_lines_concat(first: Seq<Seq<char>>, second: Seq<Seq<char>>)
    ensures
        parent_order_lines(first + second) == parent_order_lines(first) + parent_order_lines(second),
    decreases second.len(),
{
    if second.len() == 0 {
        assert(first + second =~= first);
        assert(parent_order_lines(first) + parent_order_lines(second) =~= parent_order_lines(first));
    } else {
        lemma_parent_order_lines_concat(first, second.drop_last());
        assert((first + second).drop_last() =~= first + second.drop_last());
        assert((first + second).last() == second.last());
        if second.last().len() != 0 {
            let fields = line_of_fields(split_pieces(second.last(), ' '));
            assert((parent_order_lines(first) + parent_order_lines(second.drop_last())).push(fields)
                =~= parent_order_lines(first) + parent_order_lines(second.drop_last()).push(fields));
        }
    }
}

/// Empty lines change nothing: doubling a line break of the file, or adding a
/// line break at its end, gives the same lines and fields, hence the same
/// parsed lines, the same order, warnings and errors.
pub proof fn lemma_empty_lines_change_nothing(text: Seq<char>, k: int)
    ensures
        0 <= k < text.len() && text[k] == '\n' ==> parent_order_lines(split_pieces(text.insert(k, '\n'), '\n'))
            == parent_order_lines(split_pieces(text, '\n')),
        parent_order_lines(split_pieces(text.push('\n'), '\n')) == parent_order_lines(split_pieces(text, '\n')),
{
    let sep = '\n';
    assert(text.push(sep).drop_last() =~= text);
    let pushed = split_pieces(text.push(sep), sep);
    assert(pushed == split_pieces(text, sep).push(Seq::empty()));
    assert(pushed.drop_last() =~= split_pieces(text, sep));
    assert(pushed.last().len() == 0);
    if 0 <= k < text.len() && text[k] == sep {
        let before = text.take(k);
        let after = text.skip(k + 1);
        assert(text =~= before.push(sep) + after);
        let doubled = text.insert(k, sep);
        assert(doubled =~= before.push(sep) + (Seq::<char>::empty().push(sep) + after));
        lemma_split_pieces_concat(before, after, sep);
        lemma_split_pieces_concat(before, Seq::<char>::empty().push(sep) + after, sep);
        lemma_split_pieces_concat(Seq::<char>::empty(), after, sep);
        let empty_piece = split_pieces(Seq::<char>::empty(), sep);
        assert(empty_piece =~= seq![Seq::<char>::empty()]);
        let head = split_pieces(before, sep);
        let tail = split_pieces(after, sep);
        lemma_parent_order_lines_concat(head, empty_piece + tail);
        lemma_parent_order_lines_concat(empty_piece, tail);
        lemma_parent_order_lines_concat(head, tail);
        assert(empty_piece.drop_last() =~= Seq::<Seq<char>>::empty());
        assert(parent_order_lines(Seq::<Seq<char>>::empty()) == Seq::<ParentOrderLineView>::empty());
        assert(empty_piece.last().len() == 0);
        assert(parent_order_lines(empty_piece) =~= Seq::<ParentOrderLineView>::empty());
        assert(parent_order_lines(empty_piece) + parent_order_lines(tail) =~= parent_order_lines(tail));
    }
}

/// Builds a line from its fields.
fn line_from_fields(fields: Vec<String>) -> (line: ParentOrderLine)
    requires
        fields.len() >= 1,
    ensures
        line@ == line_of_fields(texts_of(fields@)),
{
    let n = fields.len();
    let child = fields[0].clone();
    let mut parents: Vec<String> = Vec::new();
    if n >= 2 {
        parents.push(fields[1].clone());
    }
    if n >= 3 {
        parents.push(fields[2].clone());
    }
    let line = ParentOrderLine { child, parents, extra_parent: n > 3 };
    let ghost expected = line_of_fields(texts_of(fields@));
    assert(texts_of(line.parents@) =~= expected.parents);
    line
}

/// Splits the text of the file into its non-empty lines and their fields.
pub fn split_fixed_parent_order(content: &str) -> (lines: Vec<ParentOrderLine>)
    ensures
        lines_view(lines@) == parent_order_lines(split_pieces(content@, '\n')),
{
    let mut lines: Vec<ParentOrderLine> = Vec::new();
    let mut fields: Vec<String> = Vec::new();
    let mut field = String::new();
    let mut line_has_chars = false;
    let ghost mut pieces: Seq<Seq<char>> = seq![Seq::empty()];
    assert(split_pieces(Seq::<char>::empty(), ' ') == seq![Seq::<char>::empty()]);
    assert(texts_of(fields@).push(field@) =~= seq![Seq::<char>::empty()]);
    assert(content@.take(0) =~= Seq::<char>::empty());
    for c in it: content.chars()
        invariant
            it.seq() == content@,
            0 <= it.index() <= content@.len(),
            pieces == split_pieces(content@.take(it.index()), '\n'),
            pieces.len() >= 1,
            line_has_chars == (pieces.last().len() > 0),
            split_pieces(pieces.last(), ' ') == texts_of(fields@).push(field@),
            lines_view(lines@) == parent_order_lines(pieces.drop_last()),
    {
        let ghost done = content@.take(it.index());
        let ghost next = content@.take(it.index() + 1);
        proof {
            assert(next.drop_last() =~= done);
            assert(next.last() == c);
            lemma_split_pieces_len(done, '\n');
        }
        if c == '\n' {
            if line_has_chars {
                let mut finished = Vec::new();
                std::mem::swap(&mut finished, &mut fields);
                let mut last = String::new();
                std::mem::swap(&mut last, &mut field);
                let ghost before = finished@;
                finished.push(last);
                assert(texts_of(finished@) =~= texts_of(before).push(last@));
                let line = line_from_fields(finished);
                let ghost lines_before = lines@;
                lines.push(line);
                assert(lines_view(lines@) =~= lines_view(lines_before).push(line@));
            } else {
                fields = Vec::new();
                field = String::new();
            }
            line_has_chars = false;
            proof {
                let old_pieces = pieces;
                pieces = old_pieces.push(Seq::empty());
                assert(pieces.drop_last() =~= old_pieces);
                assert(texts_of(fields@).push(field@) =~= seq![Seq::<char>::empty()]);
            }
        } else {
            let ghost old_line = pieces.last();
            let ghost old_tokens = texts_of(fields@).push(field@);
            if c == ' ' {
                let mut last = String::new();
                std::mem::swap(&mut last, &mut field);
                let ghost before = fields@;
                fields.push(last);
                assert(texts_of(fields@) =~= texts_of(before).push(last@));
            } else {
                push_char(&mut field, c);
            }
            line_has_chars = true;
            proof {
                let old_pieces = pieces;
                pieces = old_pieces.update(old_pieces.len() - 1, old_line.push(c));
                assert(pieces.drop_last() =~= old_pieces.drop_last());
                assert(old_line.push(c).drop_last() =~= old_line);
                lemma_split_pieces_len(old_line, ' ');
                assert(texts_of(fields@).push(field@) =~= split_pieces(old_line.push(c), ' '));
            }
        }
    }
    proof {
        assert(content@.take(content@.len() as int) =~= content@);
    }
    if line_has_chars {
        let ghost before = fields@;
        fields.push(field);
        assert(texts_of(fields@) =~= split_pieces(pieces.last(), ' '));
        let line = line_from_fields(fields);
        let ghost lines_before = lines@;
        lines.push(line);
        assert(lines_view(lines@) =~= lines_view(lines_before).push(line@));
    }
    lines
}

/// Why the file could not be read.
#[derive(Debug, Clone, Copy, PartialEq, Eq, Structural)]
pub enum ParentOrderError {
    /// The file is not valid UTF-8.
    NotUtf8,
    /// A field of the line at this index (among the non-empty lines) is not a
    /// changeset id: field 0 is the child, fields 1 and 2 its parents.
    InvalidChangesetId { line: usize, field: usize },
    /// The line at this index names three parents, but Mercurial supports at most two.
    TooManyParents { line: usize },
}

/// Reads the content of the file as UTF-8 text and splits it into its
/// non-empty lines and their fields.
pub fn read_fixed_parent_order_lines(content: &[u8]) -> (lines: Result<Vec<ParentOrderLine>, ParentOrderError>)
    ensures
        lines is Err <==> !valid_utf8(content@),
        lines is Err ==> lines == Err::<Vec<ParentOrderLine>, ParentOrderError>(ParentOrderError::NotUtf8),
        lines matches Ok(l) ==> lines_view(l@) == parent_order_lines(split_pieces(decode_utf8(content@), '\n')),
{
    match utf8_text(content) {
        None => Err(ParentOrderError::NotUtf8),
        Some(text) => {
            proof {
                vstd::utf8::encode_utf8_decode_utf8(text@);
            }
            Ok(split_fixed_parent_order(text))
        },
    }
}

/// A line whose fields were parsed as changeset ids: `None` where a field is
/// not a valid id.
#[derive(Debug, Clone)]
pub struct ParsedParentOrderLine {
    pub child: Option<HgChangesetId>,
    pub parents: Vec<Option<HgChangesetId>>,
    pub extra_parent: bool,
}

/// Something in the file that most likely has no effect, or a line that
/// overrides an earlier one.
#[derive(Debug, Clone, Copy, PartialEq, Eq)]
pub enum ParentOrderWarning {
    /// The order is fixed for a single parent.
    SingleParent(HgChangesetId),
    /// The order is fixed for a commit with no parents.
    NoParents(HgChangesetId),
    /// The order is fixed twice for this changeset; the later line wins.
    FixedTwice(HgChangesetId),
}

/// The parents of a line, all of them valid ids.
pub open spec fn parent_ids(parents: Seq<Option<HgChangesetId>>) -> Seq<HgChangesetId> {
    parents.map_values(|parent: Option<HgChangesetId>| parent->0)
}

/// The effect of the line at `index` on the order read so far and the warnings
/// given so far.
pub open spec fn apply_parent_order_line(
    order: Map<HgChangesetId, Seq<HgChangesetId>>,
    warnings: Seq<ParentOrderWarning>,
    line: ParsedParentOrderLine,
    index: int,
) -> (Result<Map<HgChangesetId, Seq<HgChangesetId>>, ParentOrderError>, Seq<ParentOrderWarning>) {
    match line.child {
        None => (Err(ParentOrderError::InvalidChangesetId { line: index as usize, field: 0 }), warnings),
        Some(child) => {
            let parents = line.parents@;
            let warned = if parents.len() == 1 {
                warnings.push(ParentOrderWarning::SingleParent(child))
            } else if parents.len() == 0 {
                warnings.push(ParentOrderWarning::NoParents(child))
            } else {
                warnings
            };
            if parents.len() >= 1 && parents[0] is None {
                (Err(ParentOrderError::InvalidChangesetId { line: index as usize, field: 1 }), warned)
            } else if parents.len() >= 2 && parents[1] is None {
                (Err(ParentOrderError::InvalidChangesetId { line: index as usize, field: 2 }), warned)
            } else if line.extra_parent {
                (Err(ParentOrderError::TooManyParents { line: index as usize }), warned)
            } else {
                (
                    Ok(order.insert(child, parent_ids(parents))),
                    if order.contains_key(child) {
                        warned.push(ParentOrderWarning::FixedTwice(child))
                    } else {
                        warned
                    },
                )
            }
        },
    }
}

/// The order that the lines fix, line after line (a later line for the same
/// changeset replaces an earlier one), or the first error; and the warnings
/// given up to the end or to the error.
pub open spec fn assemble_parent_order(lines: Seq<ParsedParentOrderLine>) -> (Result<Map<HgChangesetId, Seq<HgChangesetId>>, ParentOrderError>, Seq<ParentOrderWarning>)
    decreases lines.len(),
{
    if lines.len() == 0 {
        (Ok(Map::empty()), Seq::empty())
    } else {
        let (before, warnings) = assemble_parent_order(lines.drop_last());
        match before {
            Err(e) => (Err(e), warnings),
            Ok(order) => apply_parent_order_line(order, warnings, lines.last(), lines.len() - 1),
        }
    }
}

/// The index of the entry for `key`.
pub open spec fn key_index(entries: Seq<(HgChangesetId, Vec<HgChangesetId>)>, key: HgChangesetId) -> int {
    choose|i: int| 0 <= i < entries.len() && entries[i].0 == key
}

/// Whether some entry is for `key`.
pub open spec fn has_key(entries: Seq<(HgChangesetId, Vec<HgChangesetId>)>, key: HgChangesetId) -> bool {
    exists|i: int| 0 <= i < entries.len() && entries[i].0 == key
}

/// The map from changesets to parents that a list of entries stands for.
pub open spec fn entries_map(entries: Seq<(HgChangesetId, Vec<HgChangesetId>)>) -> Map<HgChangesetId, Seq<HgChangesetId>> {
    Map::new(|key: HgChangesetId| has_key(entries, key), |key: HgChangesetId| entries[key_index(entries, key)].1@)
}

/// No two entries are for the same changeset.
pub open spec fn unique_keys(entries: Seq<(HgChangesetId, Vec<HgChangesetId>)>) -> bool {
    forall|i: int, j: int| 0 <= i < entries.len() && 0 <= j < entries.len() && i != j ==> entries[i].0 != entries[j].0
}

proof fn lemma_key_index_unique(entries: Seq<(HgChangesetId, Vec<HgChangesetId>)>, i: int)
    requires
        unique_keys(entries),
        0 <= i < entries.len(),
    ensures
        key_index(entries, entries[i].0) == i,
{
    let k = key_index(entries, entries[i].0);
    assert(0 <= k < entries.len() && entries[k].0 == entries[i].0);
}

proof fn lemma_replace_entry(entries: Seq<(HgChangesetId, Vec<HgChangesetId>)>, j: int, parents: Vec<HgChangesetId>)
    requires
        unique_keys(entries),
        0 <= j < entries.len(),
    ensures
        unique_keys(entries.update(j, (entries[j].0, parents))),
        entries_map(entries.update(j, (entries[j].0, parents))) == entries_map(entries).insert(entries[j].0, parents@),
{
    let key = entries[j].0;
    let updated = entries.update(j, (key, parents));
    assert forall|k: HgChangesetId| has_key(updated, k) <==> has_key(entries, k) by {
        if has_key(entries, k) {
            let i = choose|i: int| 0 <= i < entries.len() && entries[i].0 == k;
            assert(updated[i].0 == k);
        }
        if has_key(updated, k) {
            let i = choose|i: int| 0 <= i < updated.len() && updated[i].0 == k;
            assert(entries[i].0 == k);
        }
    }
    assert forall|k: HgChangesetId| #[trigger] has_key(updated, k) implies
        updated[key_index(updated, k)].1@ == (if k == key { parents@ } else { entries[key_index(entries, k)].1@ }) by {
        let i = choose|i: int| 0 <= i < updated.len() && updated[i].0 == k;
        lemma_key_index_unique(updated, i);
        lemma_key_index_unique(entries, i);
    }
    assert(entries_map(updated) =~= entries_map(entries).insert(key, parents@));
}

proof fn lemma_add_entry(entries: Seq<(HgChangesetId, Vec<HgChangesetId>)>, key: HgChangesetId, parents: Vec<HgChangesetId>)
    requires
        unique_keys(entries),
        !has_key(entries, key),
    ensures
        unique_keys(entries.push((key, parents))),
        entries_map(entries.push((key, parents))) == entries_map(entries).insert(key, parents@),
{
    let pushed = entries.push((key, parents));
    assert forall|k: HgChangesetId| has_key(pushed, k) <==> (has_key(entries, k) || k == key) by {
        if has_key(entries, k) {
            let i = choose|i: int| 0 <= i < entries.len() && entries[i].0 == k;
            assert(pushed[i].0 == k);
        }
        if k == key {
            assert(pushed[entries.len() as int].0 == k);
        }
        if has_key(pushed, k) && k != key {
            let i = choose|i: int| 0 <= i < pushed.len() && pushed[i].0 == k;
            assert(entries[i].0 == k);
        }
    }
    assert forall|k: HgChangesetId| #[trigger] has_key(pushed, k) implies
        pushed[key_index(pushed, k)].1@ == (if k == key { parents@ } else { entries[key_index(entries, k)].1@ }) by {
        let i = choose|i: int| 0 <= i < pushed.len() && pushed[i].0 == k;
        lemma_key_index_unique(pushed, i);
        if i < entries.len() {
            lemma_key_index_unique(entries, i);
        }
    }
    assert(entries_map(pushed) =~= entries_map(entries).insert(key, parents@));
}

/// The map from changesets to their parents in the fixed order.
#[derive(Debug)]
pub struct FixedParentOrder {
    entries: Vec<(HgChangesetId, Vec<HgChangesetId>)>,
}

impl View for FixedParentOrder {
    type V = Map<HgChangesetId, Seq<HgChangesetId>>;

    /// The changesets and their parents.
    closed spec fn view(&self) -> Map<HgChangesetId, Seq<HgChangesetId>> {
        entries_map(self.entries@)
    }
}

impl FixedParentOrder {
    #[verifier::type_invariant]
    spec fn unique(self) -> bool {
        unique_keys(self.entries@)
    }

    /// The number of changesets whose parent order is fixed.
    pub fn len(&self) -> (n: usize)
        ensures
            n == self@.dom().len(),
    {
        proof {
            use_type_invariant(self);
            lemma_entries_map_len(self.entries@);
        }
        self.entries.len()
    }

    /// The parents fixed for `child`, if any.
    pub fn parents_of(&self, child: &HgChangesetId) -> (parents: Option<Vec<HgChangesetId>>)
        ensures
            parents is Some <==> self@.contains_key(*child),
            parents matches Some(p) ==> p@ == self@[*child],
    {
        proof {
            use_type_invariant(self);
        }
        let mut i: usize = 0;
        while i < self.entries.len()
            invariant
                i <= self.entries.len(),
                unique_keys(self.entries@),
                forall|j: int| 0 <= j < i ==> self.entries@[j].0 != *child,
            decreases self.entries.len() - i,
        {
            if self.entries[i].0.same_as(child) {
                proof {
                    lemma_key_index_unique(self.entries@, i as int);
                }
                return Some(self.entries[i].1.clone());
            }
            i = i + 1;
        }
        None
    }

    /// The entries, one per changeset, each with its parents.
    pub fn into_entries(self) -> (entries: Vec<(HgChangesetId, Vec<HgChangesetId>)>)
        ensures
            unique_keys(entries@),
            entries_map(entries@) == self@,
    {
        proof {
            use_type_invariant(&self);
        }
        self.entries
    }
}

proof fn lemma_entries_map_len(entries: Seq<(HgChangesetId, Vec<HgChangesetId>)>)
    requires
        unique_keys(entries),
    ensures
        entries_map(entries).dom().finite(),
        entries_map(entries).dom().len() == entries.len(),
    decreases entries.len(),
{
    if entries.len() == 0 {
        assert(entries_map(entries).dom() =~= Set::<HgChangesetId>::empty());
    } else {
        let before = entries.drop_last();
        assert(unique_keys(before));
        lemma_entries_map_len(before);
        let last = entries.last();
        assert(!has_key(before, last.0));
        lemma_add_entry(before, last.0, last.1);
        assert(before.push((last.0, last.1)) =~= entries);
        assert(!entries_map(before).dom().contains(last.0));
    }
}

/// What `assemble_fixed_parent_order` found.
#[derive(Debug)]
pub struct ParentOrderAssembly {
    /// The fixed order, or the first error.
    pub order: Result<FixedParentOrder, ParentOrderError>,
    /// The warnings, in the order of the lines.
    pub warnings: Vec<ParentOrderWarning>,
}

proof fn lemma_assemble_error_stays(lines: Seq<ParsedParentOrderLine>, n: int)
    requires
        0 <= n <= lines.len(),
        assemble_parent_order(lines.take(n)).0 is Err,
    ensures
        assemble_parent_order(lines) == assemble_parent_order(lines.take(n)),
    decreases lines.len() - n,
{
    if n < lines.len() {
        assert(lines.take(n + 1).drop_last() =~= lines.take(n));
        lemma_assemble_error_stays(lines, n + 1);
    } else {
        assert(lines.take(n) =~= lines);
    }
}

/// Checks the parsed lines in order and builds the map from each changeset to
/// its parents, with the warnings to give.
pub fn assemble_fixed_parent_order(lines: &Vec<ParsedParentOrderLine>) -> (assembled: ParentOrderAssembly)
    requires
        forall|i: int| 0 <= i < lines.len() ==> (#[trigger] lines@[i]).parents.len() <= 2,
    ensures
        assembled.warnings@ == assemble_parent_order(lines@).1,
        match assembled.order {
            Ok(order) => assemble_parent_order(lines@).0 == Ok::<Map<HgChangesetId, Seq<HgChangesetId>>, ParentOrderError>(order@),
            Err(e) => assemble_parent_order(lines@).0 == Err::<Map<HgChangesetId, Seq<HgChangesetId>>, ParentOrderError>(e),
        },
{
    let mut entries: Vec<(HgChangesetId, Vec<HgChangesetId>)> = Vec::new();
    let mut warnings: Vec<ParentOrderWarning> = Vec::new();
    let mut i: usize = 0;
    assert(lines@.take(0) =~= Seq::<ParsedParentOrderLine>::empty());
    assert(entries_map(entries@) =~= Map::<HgChangesetId, Seq<HgChangesetId>>::empty());
    while i < lines.len()
        invariant
            i <= lines.len(),
            forall|k: int| 0 <= k < lines.len() ==> (#[trigger] lines@[k]).parents.len() <= 2,
            unique_keys(entries@),
            assemble_parent_order(lines@.take(i as int)) == (Ok::<Map<HgChangesetId, Seq<HgChangesetId>>, ParentOrderError>(entries_map(entries@)), warnings@),
        decreases lines.len() - i,
    {
        let line = &lines[i];
        let ghost order = entries_map(entries@);
        let ghost warnings_before = warnings@;
        proof {
            assert(lines@.take(i + 1).drop_last() =~= lines@.take(i as int));
            assert(lines@.take(i + 1).last() == lines@[i as int]);
        }
        let ghost step = apply_parent_order_line(order, warnings_before, lines@[i as int], i as int);
        assert(assemble_parent_order(lines@.take(i + 1)) == step);
        let child = match line.child {
            Some(child) => child,
            None => {
                proof {
                    lemma_assemble_error_stays(lines@, i + 1);
                }
                let failed = ParentOrderError::InvalidChangesetId { line: i, field: 0 };
                return ParentOrderAssembly { order: Err(failed), warnings };
            },
        };
        let n = line.parents.len();
        if n == 1 {
            warnings.push(ParentOrderWarning::SingleParent(child));
        } else if n == 0 {
            warnings.push(ParentOrderWarning::NoParents(child));
        }
        let mut parents: Vec<HgChangesetId> = Vec::new();
        if n >= 1 {
            match line.parents[0] {
                Some(parent) => parents.push(parent),
                None => {
                    proof {
                        lemma_assemble_error_stays(lines@, i + 1);
                    }
                    let failed = ParentOrderError::InvalidChangesetId { line: i, field: 1 };
                    return ParentOrderAssembly { order: Err(failed), warnings };
                },
            }
        }
        if n >= 2 {
            match line.parents[1] {
                Some(parent) => parents.push(parent),
                None => {
                    proof {
                        lemma_assemble_error_stays(lines@, i + 1);
                    }
                    let failed = ParentOrderError::InvalidChangesetId { line: i, field: 2 };
                    return ParentOrderAssembly { order: Err(failed), warnings };
                },
            }
        }
        if line.extra_parent {
            proof {
                lemma_assemble_error_stays(lines@, i + 1);
            }
            let failed = ParentOrderError::TooManyParents { line: i };
            return ParentOrderAssembly { order: Err(failed), warnings };
        }
        assert(parents@ =~= parent_ids(line.parents@));
        let mut j: usize = 0;
        let mut found = false;
        while j < entries.len()
            invariant_except_break
                !found,
            invariant
                j <= entries.len(),
                forall|k: int| 0 <= k < j ==> entries@[k].0 != child,
            ensures
                found ==> j < entries.len() && entries@[j as int].0 == child,
                !found ==> forall|k: int| 0 <= k < entries.len() ==> entries@[k].0 != child,
            decreases entries.len() - j,
        {
            if entries[j].0.same_as(&child) {
                found = true;
                break;
            }
            j = j + 1;
        }
        if found {
            proof {
                lemma_replace_entry(entries@, j as int, parents);
                assert(order.contains_key(child));
            }
            entries.set(j, (child, parents));
            warnings.push(ParentOrderWarning::FixedTwice(child));
        } else {
            proof {
                lemma_add_entry(entries@, child, parents);
                assert(!order.contains_key(child));
            }
            entries.push((child, parents));
        }
        i = i + 1;
    }
    assert(lines@.take(lines.len() as int) =~= lines@);
    ParentOrderAssembly { order: Ok(FixedParentOrder { entries }), warnings }
}

/// No changeset gets more than two parents: the order read from lines of at
/// most two parents each maps every changeset to at most two parents.
pub proof fn lemma_at_most_two_parents(lines: Seq<ParsedParentOrderLine>)
    requires
        forall|i: int| 0 <= i < lines.len() ==> (#[trigger] lines[i]).parents.len() <= 2,
    ensures
        assemble_parent_order(lines).0 matches Ok(order) ==> forall|child: HgChangesetId| #[trigger] order.contains_key(child) ==> order[child].len() <= 2,
    decreases lines.len(),
{
    if lines.len() > 0 {
        let before = lines.drop_last();
        assert forall|i: int| 0 <= i < before.len() implies (#[trigger] before[i]).parents.len() <= 2 by {
            assert(before[i] == lines[i]);
        }
        lemma_at_most_two_parents(before);
        assert(lines.last() == lines[lines.len() - 1]);
    }
}

/// Whether a line after index `i` names the same child as line `i`.
pub open spec fn named_again_later(lines: Seq<ParsedParentOrderLine>, i: int) -> bool {
    exists|j: int| i < j < lines.len() && (#[trigger] lines[j]).child == lines[i].child
}

/// On success, the order holds exactly the children that the lines name:
/// every line's child is a key, and every key is the child of some line.
pub proof fn lemma_order_keys_are_children(lines: Seq<ParsedParentOrderLine>)
    ensures
        assemble_parent_order(lines).0 matches Ok(order) ==> {
            &&& forall|i: int| 0 <= i < lines.len() ==> ((#[trigger] lines[i]).child is Some && order.contains_key(lines[i].child->0))
            &&& forall|c: HgChangesetId| #[trigger] order.contains_key(c) ==> exists|i: int| 0 <= i < lines.len() && (#[trigger] lines[i]).child == Some(c)
        },
    decreases lines.len(),
{
    if lines.len() > 0 {
        let before = lines.drop_last();
        lemma_order_keys_are_children(before);
        if let Ok(order) = assemble_parent_order(lines).0 {
            let n = lines.len() - 1;
            let last = lines[n];
            assert(lines.last() == last);
            let prev = assemble_parent_order(before).0;
            assert(prev is Ok);
            let m = prev->Ok_0;
            let c = last.child->0;
            assert(last.child is Some);
            assert(order == m.insert(c, parent_ids(last.parents@)));
            assert forall|i: int| 0 <= i < lines.len() implies ((#[trigger] lines[i]).child is Some && order.contains_key(lines[i].child->0)) by {
                if i < n {
                    assert(lines[i] == before[i]);
                }
            }
            assert forall|k: HgChangesetId| #[trigger] order.contains_key(k) implies exists|i: int| 0 <= i < lines.len() && (#[trigger] lines[i]).child == Some(k) by {
                if k == c {
                    assert(lines[n].child == Some(k));
                } else {
                    assert(m.contains_key(k));
                    let i = choose|i: int| 0 <= i < before.len() && (#[trigger] before[i]).child == Some(k);
                    assert(lines[i] == before[i]);
                }
            }
        }
    }
}

/// On success, each changeset gets exactly the parents of the last line that
/// names it, in the order that line gives them: a later line replaces an
/// earlier one, whatever the number of parents of either.
pub proof fn lemma_last_line_wins(lines: Seq<ParsedParentOrderLine>)
    ensures
        assemble_parent_order(lines).0 matches Ok(order) ==> forall|i: int|
            0 <= i < lines.len() && !named_again_later(lines, i) ==> order[(#[trigger] lines[i]).child->0]
                == parent_ids(lines[i].parents@),
    decreases lines.len(),
{
    if lines.len() > 0 {
        let before = lines.drop_last();
        lemma_last_line_wins(before);
        lemma_order_keys_are_children(before);
        if let Ok(order) = assemble_parent_order(lines).0 {
            let n = lines.len() - 1;
            let last = lines[n];
            assert(lines.last() == last);
            let prev = assemble_parent_order(before).0;
            assert(prev is Ok);
            let m = prev->Ok_0;
            let c = last.child->0;
            assert(last.child is Some);
            assert(order == m.insert(c, parent_ids(last.parents@)));
            assert forall|i: int| 0 <= i < lines.len() && !named_again_later(lines, i) implies order[(#[trigger] lines[i]).child->0]
                == parent_ids(lines[i].parents@) by {
                if i < n {
                    assert(lines[i] == before[i]);
                    assert(before[i].child is Some && m.contains_key(before[i].child->0));
                    if named_again_later(before, i) {
                        let j = choose|j: int| i < j < before.len() && (#[trigger] before[j]).child == before[i].child;
                        assert(lines[j] == before[j]);
                    }
                    if lines[i].child == Some(c) {
                        assert(lines[n].child == lines[i].child);
                    }
                }
            }
        }
    }
}

} // verus!
