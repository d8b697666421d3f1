//! Fold regions derived from the syntax tree.
use vstd::prelude::*;
use vstd::utf8::encode_utf8;
use std::ops::Range;
use tree_sitter::{Node, Query, QueryCursor, StreamingIterator, Tree};
use crate::buffer::EditorBuffer;
use crate::rope::{rope_text, rope_byte_to_char, rope_len_bytes, rope_to_string};
use crate::textspec::{byte_len, char_of_byte, lemma_char_of_byte_le_len};

verus! {

broadcast use crate::buffer::EditorBuffer::lemma_view_text;

/// A node of a tree-sitter syntax tree.
#[verifier::external_type_specification]
#[verifier::external_body]
pub struct ExNode<'tree>(Node<'tree>);

/// The query that selects the foldable nodes.
pub const FOLD_QUERY: &'static str = "
        (block) @fold
        (function_definition) @fold
        (if_statement) @fold
        (for_statement) @fold
        (while_statement) @fold
        (match_expression) @fold
    ";

/// A child of a captured node: its kind and its source text (`None` when the text is not UTF-8).
pub struct NodeChild {
    pub kind: String,
    pub text: Option<String>,
}

/// A node that the fold query captured: its byte range, its kind and its children.
pub struct FoldCapture {
    pub start_byte: usize,
    pub end_byte: usize,
    pub kind: String,
    pub children: Vec<NodeChild>,
}

/// A foldable region: a character range and a label.
#[derive(Debug)]
pub struct FoldRegion {
    /// Character range of the folded region.
    pub range: Range<usize>,
    /// Display name (the function name, or the node kind).
    pub label: String,
}

impl Clone for FoldRegion {
    fn clone(&self) -> (c: Self)
        ensures
            c == *self,
    {
        FoldRegion { range: self.range.start..self.range.end, label: self.label.clone() }
    }
}

/// `Node::kind`, `Node::start_byte`, `Node::end_byte` and `Node::children`: the node as plain
/// values; a child's text is its bytes of `source` as UTF-8 (as `Node::utf8_text` reads
/// them), `None` when they are not UTF-8 or lie past the end of `source`. Nothing is stated of
/// the values: `run_query` names them.
#[verifier::external_body]
fn describe_node(node: &Node, source: &[u8]) -> FoldCapture {
    let mut cursor = node.walk();
    let children = node.children(&mut cursor).map(|c| NodeChild {
        kind: c.kind().to_string(),
        text: source.get(c.start_byte()..c.end_byte())
            .and_then(|b| std::str::from_utf8(b).ok())
            .map(|s| s.to_string()),
    }).collect();
    FoldCapture { start_byte: node.start_byte(), end_byte: node.end_byte(), kind: node.kind().to_string(), children }
}

/// What `run_query` gives for a tree, the source bytes and a query: the captured nodes of
/// all matches, in order, described as by `describe_node`; `None` when the tree's grammar
/// rejects the query.
pub uninterp spec fn fold_query_captures(tree: Tree, source: Seq<u8>, query: Seq<char>) -> Option<Seq<CaptureView>>;

/// `Query::new` with the tree's grammar, then `QueryCursor::matches` over the root node:
/// the captured nodes of all matches, in order; `None` when the grammar rejects the query.
/// The result is the name `fold_query_captures` of the arguments (a function of the tree,
/// the bytes and the query alone); what the captures are is not stated.
#[verifier::external_body]
fn run_query(tree: &Tree, source: &[u8], query_source: &str) -> (r: Option<Vec<FoldCapture>>)
    ensures
        (match r {
            Some(v) => Some(capture_views(v@)),
            None => None,
        }) == fold_query_captures(*tree, source@, query_source@),
{
    let root = tree.root_node();
    let query = Query::new(&root.language(), query_source).ok()?;
    let mut cursor = QueryCursor::new();
    let mut matches = cursor.matches(&query, root, source);
    let mut out = Vec::new();
    while let Some(m) = matches.next() {
        out.extend(m.captures().iter().map(|c| describe_node(&c.node, source)));
    }
    Some(out)
}

/// A child as mathematical values.
pub struct ChildView {
    pub kind: Seq<char>,
    pub text: Option<Seq<char>>,
}

/// A capture as mathematical values.
pub struct CaptureView {
    pub start_byte: usize,
    pub end_byte: usize,
    pub kind: Seq<char>,
    pub children: Seq<ChildView>,
}

/// A region as mathematical values.
pub struct RegionView {
    pub start: usize,
    pub end: usize,
    pub label: Seq<char>,
}

pub open spec fn child_view(c: NodeChild) -> ChildView {
    ChildView {
        kind: c.kind@,
        text: match c.text {
            Some(t) => Some(t@),
            None => None,
        },
    }
}

pub open spec fn capture_view(c: FoldCapture) -> CaptureView {
    CaptureView {
        start_byte: c.start_byte,
        end_byte: c.end_byte,
        kind: c.kind@,
        children: c.children@.map_values(|ch: NodeChild| child_view(ch)),
    }
}

pub open spec fn capture_views(cs: Seq<FoldCapture>) -> Seq<CaptureView> {
    cs.map_values(|c: FoldCapture| capture_view(c))
}

pub open spec fn region_view(r: FoldRegion) -> RegionView {
    RegionView { start: r.range.start, end: r.range.end, label: r.label@ }
}

pub open spec fn region_views(rs: Seq<FoldRegion>) -> Seq<RegionView> {
    rs.map_values(|r: FoldRegion| region_view(r))
}

/// The name of a function: the text of its first "identifier" child, "function" when that
/// text is not UTF-8 or when there is no such child.
pub open spec fn function_name(children: Seq<ChildView>) -> Seq<char>
    decreases children.len(),
{
    if children.len() == 0 {
        "function"@
    } else if children[0].kind == "identifier"@ {
        match children[0].text {
            Some(t) => t,
            None => "function"@,
        }
    } else {
        function_name(children.drop_first())
    }
}

/// The label of a region: the function name for a function definition, else the node kind.
pub open spec fn region_label(c: CaptureView) -> Seq<char> {
    if c.kind == "function_definition"@ {
        function_name(c.children)
    } else {
        c.kind
    }
}

/// The region of a capture in text `t`, when it spans more than one character.
pub open spec fn capture_region(t: Seq<char>, c: CaptureView) -> Option<RegionView> {
    let start = char_of_byte(t, c.start_byte as int);
    let end = char_of_byte(t, c.end_byte as int);
    if end > start + 1 {
        Some(RegionView { start: start as usize, end: end as usize, label: region_label(c) })
    } else {
        None
    }
}

/// The regions of the captures, in order.
pub open spec fn candidate_regions(t: Seq<char>, cs: Seq<CaptureView>) -> Seq<RegionView>
    decreases cs.len(),
{
    if cs.len() == 0 {
        Seq::empty()
    } else {
        let rest = candidate_regions(t, cs.drop_last());
        match capture_region(t, cs.last()) {
            Some(r) => rest.push(r),
            None => rest,
        }
    }
}

/// `r` put into `s` after every region that starts at or before it, counted from the end.
pub open spec fn insert_by_start(s: Seq<RegionView>, r: RegionView) -> Seq<RegionView>
    decreases s.len(),
{
    if s.len() == 0 {
        seq![r]
    } else if s.last().start <= r.start {
        s.push(r)
    } else {
        insert_by_start(s.drop_last(), r).push(s.last())
    }
}

/// The regions stably sorted by start.
pub open spec fn sort_by_start(s: Seq<RegionView>) -> Seq<RegionView>
    decreases s.len(),
{
    if s.len() == 0 {
        Seq::empty()
    } else {
        insert_by_start(sort_by_start(s.drop_last()), s.last())
    }
}

/// The regions kept, in order: each region that starts before the end of the last kept one
/// is dropped (the outermost, earliest region wins).
pub open spec fn drop_overlaps(s: Seq<RegionView>) -> Seq<RegionView>
    decreases s.len(),
{
    if s.len() == 0 {
        Seq::empty()
    } else {
        let kept = drop_overlaps(s.drop_last());
        if kept.len() > 0 && s.last().start < kept.last().end {
            kept
        } else {
            kept.push(s.last())
        }
    }
}

/// The fold regions of the captures in text `t`.
pub open spec fn fold_regions_spec(t: Seq<char>, cs: Seq<CaptureView>) -> Seq<RegionView> {
    drop_overlaps(sort_by_start(candidate_regions(t, cs)))
}

/// Every capture lies within the text.
pub open spec fn captures_within(t: Seq<char>, cs: Seq<CaptureView>) -> bool {
    forall|i: int| 0 <= i < cs.len() ==> #[trigger] cs[i].start_byte <= byte_len(t) && cs[i].end_byte <= byte_len(t)
}

/// `s` with `r` inserted at index `k` is `insert_by_start(s, r)` when the regions from `k`
/// on start after `r` and the one before `k` does not.
proof fn lemma_insert_at(s: Seq<RegionView>, r: RegionView, k: int)
    requires
        0 <= k <= s.len(),
        forall|j: int| k <= j < s.len() ==> #[trigger] s[j].start > r.start,
        k > 0 ==> s[k - 1].start <= r.start,
    ensures
        insert_by_start(s, r) == s.insert(k, r),
    decreases s.len(),
{
    if s.len() == 0 {
        assert(s.insert(k, r) =~= seq![r]);
    } else if k == s.len() {
        assert(s.insert(k, r) =~= s.push(r));
    } else {
        lemma_insert_at(s.drop_last(), r, k);
        assert(s.drop_last().insert(k, r).push(s.last()) =~= s.insert(k, r));
    }
}

/// The name of a function from its children (see `function_name`).
fn function_label(children: &Vec<NodeChild>) -> (s: String)
    ensures
        s@ == function_name(children@.map_values(|ch: NodeChild| child_view(ch))),
{
    let ghost views = children@.map_values(|ch: NodeChild| child_view(ch));
    let identifier = "identifier".to_owned();
    let mut i: usize = 0;
    proof {
        assert(views.skip(0) =~= views);
    }
    while i < children.len()
        invariant
            0 <= i <= children@.len(),
            views == children@.map_values(|ch: NodeChild| child_view(ch)),
            identifier@ == "identifier"@,
            function_name(views) == function_name(views.skip(i as int)),
        decreases children@.len() - i,
    {
        proof {
            assert(views.skip(i as int)[0] == child_view(children@[i as int]));
            assert(views.skip(i as int).drop_first() =~= views.skip(i as int + 1));
        }
        if children[i].kind == identifier {
            return match &children[i].text {
                Some(t) => t.clone(),
                None => "function".to_owned(),
            };
        }
        i = i + 1;
    }
    proof {
        assert(views.skip(i as int) =~= Seq::<ChildView>::empty());
    }
    "function".to_owned()
}

/// Puts `r` into `sorted` after every region that starts at or before it (see `insert_by_start`).
fn insert_sorted(sorted: &mut Vec<FoldRegion>, r: FoldRegion)
    ensures
        region_views(final(sorted)@) == insert_by_start(region_views(old(sorted)@), region_view(r)),
{
    let ghost s = region_views(sorted@);
    let ghost rv = region_view(r);
    let mut k = sorted.len();
    while k > 0 && sorted[k - 1].range.start > r.range.start
        invariant
            s == region_views(sorted@),
            rv == region_view(r),
            0 <= k <= s.len(),
            forall|j: int| k <= j < s.len() ==> #[trigger] s[j].start > rv.start,
        decreases k,
    {
        k = k - 1;
    }
    proof {
        lemma_insert_at(s, rv, k as int);
    }
    sorted.insert(k, r);
    proof {
        assert(region_views(sorted@) =~= s.insert(k as int, rv));
    }
}

/// The fold regions of captured nodes in the buffer (see `fold_regions_spec`): the regions of
/// more than one character, labelled, sorted by start, without the ones that overlap an
/// earlier kept region. Every capture must lie within the text.
pub fn fold_regions_from_captures(captures: &Vec<FoldCapture>, buf: &EditorBuffer) -> (r: Vec<FoldRegion>)
    requires
        captures_within(buf@.text, capture_views(captures@)),
    ensures
        region_views(r@) == fold_regions_spec(buf@.text, capture_views(captures@)),
{
    let rope = buf.rope();
    let ghost t = buf@.text;
    let ghost cvs = capture_views(captures@);
    let function_definition = "function_definition".to_owned();
    let mut sorted: Vec<FoldRegion> = Vec::new();
    let mut i: usize = 0;
    while i < captures.len()
        invariant
            t == rope_text(*rope),
            cvs == capture_views(captures@),
            captures_within(t, cvs),
            function_definition@ == "function_definition"@,
            0 <= i <= captures@.len(),
            region_views(sorted@) == sort_by_start(candidate_regions(t, cvs.take(i as int))),
        decreases captures@.len() - i,
    {
        let c = &captures[i];
        proof {
            assert(cvs[i as int] == capture_view(*c));
            assert(cvs.take(i as int + 1).drop_last() =~= cvs.take(i as int));
            assert(cvs.take(i as int + 1).last() == cvs[i as int]);
        }
        let start_char = rope_byte_to_char(rope, c.start_byte);
        let end_char = rope_byte_to_char(rope, c.end_byte);
        if end_char > start_char && end_char - start_char > 1 {
            let label = if c.kind == function_definition {
                function_label(&c.children)
            } else {
                c.kind.clone()
            };
            let region = FoldRegion { range: start_char..end_char, label };
            proof {
                assert(Some(region_view(region)) == capture_region(t, cvs[i as int]));
                let cand = candidate_regions(t, cvs.take(i as int));
                assert(candidate_regions(t, cvs.take(i as int + 1)) == cand.push(region_view(region)));
                assert(cand.push(region_view(region)).drop_last() =~= cand);
            }
            insert_sorted(&mut sorted, region);
        }
        i = i + 1;
    }
    proof {
        assert(cvs.take(captures@.len() as int) =~= cvs);
    }
    let ghost all = region_views(sorted@);
    let mut filtered: Vec<FoldRegion> = Vec::new();
    let mut j: usize = 0;
    while j < sorted.len()
        invariant
            all == region_views(sorted@),
            0 <= j <= all.len(),
            region_views(filtered@) == drop_overlaps(all.take(j as int)),
        decreases all.len() - j,
    {
        proof {
            assert(all.take(j as int + 1).drop_last() =~= all.take(j as int));
            assert(all.take(j as int + 1).last() == region_view(sorted@[j as int]));
        }
        let n = filtered.len();
        let overlaps = n > 0 && sorted[j].range.start < filtered[n - 1].range.end;
        if !overlaps {
            let ghost before = filtered@;
            filtered.push(sorted[j].clone());
            proof {
                assert(region_views(filtered@) =~= region_views(before).push(region_view(sorted@[j as int])));
            }
        }
        j = j + 1;
    }
    proof {
        assert(all.take(all.len() as int) =~= all);
    }
    filtered
}

/// The fold regions of `captures` in text `t`: `None` when there are no captures (the query
/// was rejected) or one of them lies outside the text.
pub open spec fn fold_outcome(t: Seq<char>, captures: Option<Seq<CaptureView>>) -> Option<Seq<RegionView>> {
    match captures {
        None => None,
        Some(cs) => if captures_within(t, cs) {
            Some(fold_regions_spec(t, cs))
        } else {
            None
        },
    }
}

/// The regions of an optional list, as mathematical values.
pub open spec fn opt_region_views(r: Option<Vec<FoldRegion>>) -> Option<Seq<RegionView>> {
    match r {
        Some(v) => Some(region_views(v@)),
        None => None,
    }
}

/// Extracts the fold regions of the buffer from its syntax tree with `FOLD_QUERY` (see
/// `fold_outcome` and `fold_regions_from_captures`): the query's captures over the buffer's
/// UTF-8 text; `None` when the tree's grammar rejects the query or a captured node lies
/// outside the buffer's text.
pub fn fold_regions_from_tree(tree: &Tree, buf: &EditorBuffer) -> (r: Option<Vec<FoldRegion>>)
    ensures
        opt_region_views(r) == fold_outcome(
            buf@.text,
            fold_query_captures(*tree, encode_utf8(buf@.text), FOLD_QUERY@),
        ),
{
    let source = rope_to_string(buf.rope());
    let captures = match run_query(tree, source.as_str().as_bytes(), FOLD_QUERY) {
        Some(c) => c,
        None => {
            return None;
        },
    };
    let ghost found = fold_query_captures(*tree, encode_utf8(buf@.text), FOLD_QUERY@);
    assert(found == Some(capture_views(captures@)));
    let total = rope_len_bytes(buf.rope());
    let mut i: usize = 0;
    while i < captures.len()
        invariant
            found == Some(capture_views(captures@)),
            found == fold_query_captures(*tree, encode_utf8(buf@.text), FOLD_QUERY@),
            total == byte_len(buf@.text),
            0 <= i <= captures@.len(),
            forall|j: int|
                0 <= j < i ==> #[trigger] captures@[j].start_byte <= total && captures@[j].end_byte <= total,
        decreases captures@.len() - i,
    {
        if captures[i].start_byte > total || captures[i].end_byte > total {
            proof {
                let cvs = capture_views(captures@);
                assert(cvs[i as int] == capture_view(captures@[i as int]));
                assert(!(cvs[i as int].start_byte <= byte_len(buf@.text) && cvs[i as int].end_byte <= byte_len(buf@.text)));
                assert(!captures_within(buf@.text, cvs));
                assert(fold_outcome(buf@.text, found) is None);
            }
            return None;
        }
        let ghost i0 = i as int;
        i = i + 1;
        assert forall|j: int| 0 <= j < i implies #[trigger] captures@[j].start_byte <= total
            && captures@[j].end_byte <= total by {
            if j == i0 {
                assert(captures@[i0].start_byte <= total);
            }
        }
    }
    proof {
        let cvs = capture_views(captures@);
        assert forall|j: int| 0 <= j < cvs.len() implies #[trigger] cvs[j].start_byte <= byte_len(
            buf@.text,
        ) && cvs[j].end_byte <= byte_len(buf@.text) by {
            assert(cvs[j] == capture_view(captures@[j]));
        }
    }
    let regions = fold_regions_from_captures(&captures, buf);
    Some(regions)
}

/// Each kept region ends at or before the next one starts.
proof fn lemma_drop_overlaps_disjoint(s: Seq<RegionView>)
    ensures
        forall|i: int|
            0 <= i < drop_overlaps(s).len() - 1 ==> #[trigger] drop_overlaps(s)[i].end <= drop_overlaps(
                s,
            )[i + 1].start,
    decreases s.len(),
{
    if s.len() > 0 {
        lemma_drop_overlaps_disjoint(s.drop_last());
        let kept = drop_overlaps(s.drop_last());
        let r = drop_overlaps(s);
        if !(kept.len() > 0 && s.last().start < kept.last().end) {
            assert forall|i: int| 0 <= i < r.len() - 1 implies #[trigger] r[i].end <= r[i + 1].start by {
                if i < kept.len() - 1 {
                    assert(r[i] == kept[i] && r[i + 1] == kept[i + 1]);
                } else {
                    assert(r[i] == kept.last() && r[i + 1] == s.last());
                }
            }
        }
    }
}

/// Every region spans more than one character and ends within the first `n` characters.
pub open spec fn regions_within(s: Seq<RegionView>, n: int) -> bool {
    forall|i: int| 0 <= i < s.len() ==> #[trigger] s[i].start + 1 < s[i].end && s[i].end <= n
}

proof fn lemma_candidates_within(t: Seq<char>, cs: Seq<CaptureView>)
    requires
        t.len() <= usize::MAX,
    ensures
        regions_within(candidate_regions(t, cs), t.len() as int),
    decreases cs.len(),
{
    if cs.len() > 0 {
        lemma_candidates_within(t, cs.drop_last());
        lemma_char_of_byte_le_len(t, cs.last().end_byte as int);
        lemma_char_of_byte_le_len(t, cs.last().start_byte as int);
    }
}

proof fn lemma_insert_within(s: Seq<RegionView>, r: RegionView, n: int)
    requires
        regions_within(s, n),
        r.start + 1 < r.end <= n,
    ensures
        regions_within(insert_by_start(s, r), n),
    decreases s.len(),
{
    if s.len() > 0 && s.last().start > r.start {
        lemma_insert_within(s.drop_last(), r, n);
    }
}

proof fn lemma_sort_within(s: Seq<RegionView>, n: int)
    requires
        regions_within(s, n),
    ensures
        regions_within(sort_by_start(s), n),
    decreases s.len(),
{
    if s.len() > 0 {
        lemma_sort_within(s.drop_last(), n);
        lemma_insert_within(sort_by_start(s.drop_last()), s.last(), n);
    }
}

proof fn lemma_drop_within(s: Seq<RegionView>, n: int)
    requires
        regions_within(s, n),
    ensures
        regions_within(drop_overlaps(s), n),
    decreases s.len(),
{
    if s.len() > 0 {
        lemma_drop_within(s.drop_last(), n);
    }
}

/// Regions that each span characters and follow each other do not overlap at all.
proof fn lemma_chain_disjoint(s: Seq<RegionView>, n: int, i: int, j: int)
    requires
        regions_within(s, n),
        forall|k: int| 0 <= k < s.len() - 1 ==> #[trigger] s[k].end <= s[k + 1].start,
        0 <= i < j < s.len(),
    ensures
        s[i].end <= s[j].start,
    decreases j - i,
{
    if j > i + 1 {
        lemma_chain_disjoint(s, n, i, j - 1);
        assert(s[j - 1].end <= s[j].start);
        assert(s[j - 1].start + 1 < s[j - 1].end);
    } else {
        assert(s[i].end <= s[i + 1].start);
    }
}

/// Fold regions are well placed: each region of `fold_regions_spec` spans more than one
/// character and ends within the text, and no two regions overlap (they come sorted by start;
/// of overlapping candidates, the earliest, outermost one is kept). The text's length must
/// fit in `usize`.
pub proof fn law_fold_regions_disjoint_within_text(t: Seq<char>, cs: Seq<CaptureView>)
    requires
        t.len() <= usize::MAX,
    ensures
        regions_within(fold_regions_spec(t, cs), t.len() as int),
        forall|i: int, j: int|
            0 <= i < j < fold_regions_spec(t, cs).len() ==> #[trigger] fold_regions_spec(t, cs)[i].end
                <= #[trigger] fold_regions_spec(t, cs)[j].start,
{
    let sorted = sort_by_start(candidate_regions(t, cs));
    lemma_candidates_within(t, cs);
    lemma_sort_within(candidate_regions(t, cs), t.len() as int);
    lemma_drop_within(sorted, t.len() as int);
    lemma_drop_overlaps_disjoint(sorted);
    let rs = fold_regions_spec(t, cs);
    assert forall|i: int, j: int| 0 <= i < j < rs.len() implies #[trigger] rs[i].end <= #[trigger] rs[j].start by {
        lemma_chain_disjoint(rs, t.len() as int, i, j);
    }
}

/// Region `r` comes from capture `c` of text `t`: it spans the characters that the capture's
/// first byte and end byte belong to, and its label is the function's name for a function
/// definition and the capture's node kind for any other capture.
pub open spec fn region_of_capture(t: Seq<char>, c: CaptureView, r: RegionView) -> bool {
    &&& r.start == char_of_byte(t, c.start_byte as int)
    &&& r.end == char_of_byte(t, c.end_byte as int)
    &&& c.kind == "function_definition"@ ==> r.label == function_name(c.children)
    &&& c.kind != "function_definition"@ ==> r.label == c.kind
}

/// Region `r` comes from one of the captures `cs`.
pub open spec fn from_some_capture(t: Seq<char>, cs: Seq<CaptureView>, r: RegionView) -> bool {
    exists|j: int| 0 <= j < cs.len() && #[trigger] region_of_capture(t, cs[j], r)
}

/// Every region of `s` comes from one of the captures `cs`.
pub open spec fn regions_from_captures(t: Seq<char>, cs: Seq<CaptureView>, s: Seq<RegionView>) -> bool {
    forall|i: int| 0 <= i < s.len() ==> #[trigger] from_some_capture(t, cs, s[i])
}

proof fn lemma_candidates_from_captures(t: Seq<char>, cs: Seq<CaptureView>)
    requires
        t.len() <= usize::MAX,
    ensures
        regions_from_captures(t, cs, candidate_regions(t, cs)),
    decreases cs.len(),
{
    if cs.len() > 0 {
        let init = cs.drop_last();
        lemma_candidates_from_captures(t, init);
        lemma_char_of_byte_le_len(t, cs.last().start_byte as int);
        lemma_char_of_byte_le_len(t, cs.last().end_byte as int);
        let rest = candidate_regions(t, init);
        let s = candidate_regions(t, cs);
        assert forall|i: int| 0 <= i < s.len() implies #[trigger] from_some_capture(t, cs, s[i]) by {
            if i < rest.len() {
                assert(from_some_capture(t, init, rest[i]));
                let j = choose|j: int| 0 <= j < init.len() && #[trigger] region_of_capture(t, init[j], rest[i]);
                assert(init[j] == cs[j]);
                assert(s[i] == rest[i]);
                assert(region_of_capture(t, cs[j], s[i]));
            } else {
                let k = cs.len() - 1;
                assert(cs[k] == cs.last());
                assert(region_of_capture(t, cs[k], s[i]));
            }
        }
    }
}

proof fn lemma_insert_from_captures(t: Seq<char>, cs: Seq<CaptureView>, s: Seq<RegionView>, r: RegionView)
    requires
        regions_from_captures(t, cs, s),
        from_some_capture(t, cs, r),
    ensures
        regions_from_captures(t, cs, insert_by_start(s, r)),
    decreases s.len(),
{
    if s.len() > 0 && s.last().start > r.start {
        lemma_insert_from_captures(t, cs, s.drop_last(), r);
        let x = insert_by_start(s.drop_last(), r);
        let y = insert_by_start(s, r);
        assert forall|i: int| 0 <= i < y.len() implies #[trigger] from_some_capture(t, cs, y[i]) by {
            if i < x.len() {
                assert(y[i] == x[i]);
            } else {
                assert(y[i] == s[s.len() - 1]);
            }
        }
    } else if s.len() > 0 {
        let y = insert_by_start(s, r);
        assert forall|i: int| 0 <= i < y.len() implies #[trigger] from_some_capture(t, cs, y[i]) by {
            if i < s.len() {
                assert(y[i] == s[i]);
            } else {
                assert(y[i] == r);
            }
        }
    } else {
        let y = insert_by_start(s, r);
        assert forall|i: int| 0 <= i < y.len() implies #[trigger] from_some_capture(t, cs, y[i]) by {
            assert(y[i] == r);
        }
    }
}

proof fn lemma_sort_from_captures(t: Seq<char>, cs: Seq<CaptureView>, s: Seq<RegionView>)
    requires
        regions_from_captures(t, cs, s),
    ensures
        regions_from_captures(t, cs, sort_by_start(s)),
    decreases s.len(),
{
    if s.len() > 0 {
        let init = s.drop_last();
        assert forall|i: int| 0 <= i < init.len() implies #[trigger] from_some_capture(t, cs, init[i]) by {
            assert(init[i] == s[i]);
        }
        lemma_sort_from_captures(t, cs, init);
        assert(s.last() == s[s.len() - 1]);
        lemma_insert_from_captures(t, cs, sort_by_start(init), s.last());
    }
}

proof fn lemma_drop_from_captures(t: Seq<char>, cs: Seq<CaptureView>, s: Seq<RegionView>)
    requires
        regions_from_captures(t, cs, s),
    ensures
        regions_from_captures(t, cs, drop_overlaps(s)),
    decreases s.len(),
{
    if s.len() > 0 {
        let init = s.drop_last();
        assert forall|i: int| 0 <= i < init.len() implies #[trigger] from_some_capture(t, cs, init[i]) by {
            assert(init[i] == s[i]);
        }
        lemma_drop_from_captures(t, cs, init);
        let kept = drop_overlaps(init);
        let y = drop_overlaps(s);
        assert forall|i: int| 0 <= i < y.len() implies #[trigger] from_some_capture(t, cs, y[i]) by {
            if i < kept.len() {
                assert(y[i] == kept[i]);
            } else {
                assert(y[i] == s[s.len() - 1]);
            }
        }
    }
}

/// Each fold region comes from a capture: it spans the characters of the capture's byte
/// range, and it is labelled with the function's name for a function definition and with the
/// node kind for any other capture. The text's length must fit in `usize`.
pub proof fn law_fold_regions_come_from_captures(t: Seq<char>, cs: Seq<CaptureView>)
    requires
        t.len() <= usize::MAX,
    ensures
        forall|i: int|
            0 <= i < fold_regions_spec(t, cs).len() ==> #[trigger] from_some_capture(
                t,
                cs,
                fold_regions_spec(t, cs)[i],
            ),
{
    lemma_candidates_from_captures(t, cs);
    lemma_sort_from_captures(t, cs, candidate_regions(t, cs));
    lemma_drop_from_captures(t, cs, sort_by_start(candidate_regions(t, cs)));
}

/// A capture that spans more than one character and overlaps no other becomes a region: the
/// fold regions of a single capture are exactly its region, labelled with its node kind (the
/// function's name for a function definition), or none when it spans at most one character.
pub proof fn law_single_capture_region(t: Seq<char>, c: CaptureView)
    requires
        t.len() <= usize::MAX,
    ensures
        ({
            let start = char_of_byte(t, c.start_byte as int);
            let end = char_of_byte(t, c.end_byte as int);
            let rs = fold_regions_spec(t, seq![c]);
            &&& end > start + 1 ==> rs.len() == 1 && rs[0].start == start && rs[0].end == end
                && (c.kind != "function_definition"@ ==> rs[0].label == c.kind)
                && (c.kind == "function_definition"@ ==> rs[0].label == function_name(c.children))
            &&& end <= start + 1 ==> rs.len() == 0
        }),
{
    let cs = seq![c];
    lemma_char_of_byte_le_len(t, c.start_byte as int);
    lemma_char_of_byte_le_len(t, c.end_byte as int);
    assert(cs.drop_last() =~= Seq::<CaptureView>::empty());
    assert(cs.last() == c);
    let cand = candidate_regions(t, cs);
    assert(candidate_regions(t, Seq::<CaptureView>::empty()) =~= Seq::<RegionView>::empty());
    assert(sort_by_start(Seq::<RegionView>::empty()) =~= Seq::<RegionView>::empty());
    assert(drop_overlaps(Seq::<RegionView>::empty()) =~= Seq::<RegionView>::empty());
    if cand.len() == 1 {
        assert(cand.drop_last() =~= Seq::<RegionView>::empty());
        assert(sort_by_start(cand) == insert_by_start(Seq::<RegionView>::empty(), cand[0]));
        assert(sort_by_start(cand) =~= seq![cand[0]]);
        assert(seq![cand[0]].drop_last() =~= Seq::<RegionView>::empty());
        assert(drop_overlaps(seq![cand[0]]) =~= seq![cand[0]]);
    } else {
        assert(cand =~= Seq::<RegionView>::empty());
    }
}

} // verus!
