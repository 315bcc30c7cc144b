//! The second pass of a run: what each feed and each operator has of the
//! other, read off the edges of the registry, and the hand-kept list of
//! realtime feeds that are put in after.

use crate::merge_laws::feed_record;
use crate::registry::{
    Association, AssociationView, FeedSpec, Registry, RegistryView,
};
use crate::text::{copy_optional_text, same_text};
use vstd::prelude::*;

verus! {

/// One line of the hand-kept list: a realtime feed that belongs to an
/// operator.
#[derive(Clone, Debug)]
pub struct RealtimeOverride {
    pub realtime_id: String,
    pub operator_id: String,
}

impl DeepView for RealtimeOverride {
    type V = (Seq<char>, Seq<char>);

    open spec fn deep_view(&self) -> (Seq<char>, Seq<char>) {
        (self.realtime_id@, self.operator_id@)
    }
}

/// The feeds of one operator, by kind. Feeds of other kinds, feeds that the
/// registry does not describe, and denylisted schedule feeds are in neither
/// list.
#[derive(Clone, Debug)]
pub struct OperatorFeeds {
    pub operator_id: String,
    pub static_feeds: Vec<Association>,
    pub realtime_feeds: Vec<Association>,
}

/// The kind of a feed, where the registry describes the feed.
pub open spec fn kind_of(reg: RegistryView, feed_id: Seq<char>) -> Option<FeedSpec> {
    match feed_record(reg, feed_id) {
        Some(record) => Some(record.spec),
        None => None,
    }
}

/// Those of the first `n` edges that lead to the feed.
pub open spec fn edges_of_feed_upto(edges: Seq<AssociationView>, feed_id: Seq<char>, n: int) -> Seq<
    AssociationView,
>
    decreases n,
{
    if n <= 0 {
        Seq::empty()
    } else if edges[n - 1].feed_id == feed_id {
        edges_of_feed_upto(edges, feed_id, n - 1).push(edges[n - 1])
    } else {
        edges_of_feed_upto(edges, feed_id, n - 1)
    }
}

/// The edges of a feed: the index of the registry by feed.
pub open spec fn edges_of_feed(reg: RegistryView, feed_id: Seq<char>) -> Seq<AssociationView> {
    edges_of_feed_upto(reg.associations, feed_id, reg.associations.len() as int)
}

/// Whether the edge leads from the operator to a feed of the kind that
/// counts: for schedule feeds, one that is not denylisted.
pub open spec fn counts_for(
    reg: RegistryView,
    denylist: Seq<Seq<char>>,
    operator_id: Seq<char>,
    kind: FeedSpec,
    edge: AssociationView,
) -> bool {
    &&& edge.operator_id == operator_id
    &&& kind_of(reg, edge.feed_id) == Some(kind)
    &&& kind == FeedSpec::Schedule ==> !denylist.contains(edge.feed_id)
}

/// Those of the first `n` edges that count for the operator and the kind.
pub open spec fn edges_of_operator_upto(
    reg: RegistryView,
    denylist: Seq<Seq<char>>,
    operator_id: Seq<char>,
    kind: FeedSpec,
    n: int,
) -> Seq<AssociationView>
    decreases n,
{
    if n <= 0 {
        Seq::empty()
    } else if counts_for(reg, denylist, operator_id, kind, reg.associations[n - 1]) {
        edges_of_operator_upto(reg, denylist, operator_id, kind, n - 1).push(
            reg.associations[n - 1],
        )
    } else {
        edges_of_operator_upto(reg, denylist, operator_id, kind, n - 1)
    }
}

/// The edges of an operator to feeds of one kind: the index of the registry
/// by operator.
pub open spec fn edges_of_operator(
    reg: RegistryView,
    denylist: Seq<Seq<char>>,
    operator_id: Seq<char>,
    kind: FeedSpec,
) -> Seq<AssociationView> {
    edges_of_operator_upto(reg, denylist, operator_id, kind, reg.associations.len() as int)
}

fn copy_edge(edge: &Association) -> (copy: Association)
    ensures
        copy.deep_view() == edge.deep_view(),
{
    Association {
        feed_id: edge.feed_id.clone(),
        operator_id: edge.operator_id.clone(),
        agency_id: copy_optional_text(&edge.agency_id),
    }
}

fn listed(list: &Vec<String>, id: &str) -> (yes: bool)
    ensures
        yes == list.deep_view().contains(id@),
{
    let mut k: usize = 0;
    while k < list.len()
        invariant
            k <= list.len(),
            forall|j: int| 0 <= j < k ==> #[trigger] list.deep_view()[j] != id@,
        decreases list.len() - k,
    {
        assert(list.deep_view()[k as int] == list@[k as int]@);
        if same_text(list[k].as_str(), id) {
            return true;
        }
        k += 1;
    }
    false
}

/// The operators of a feed, with the agency of each edge, in the order of
/// the edges.
pub fn operators_of_feed(reg: &Registry, feed_id: &str) -> (edges: Vec<Association>)
    ensures
        edges.deep_view() == edges_of_feed(reg.deep_view(), feed_id@),
{
    let mut edges: Vec<Association> = Vec::new();
    let mut k: usize = 0;
    assert(edges.deep_view() =~= Seq::empty());
    while k < reg.associations.len()
        invariant
            k <= reg.associations.len(),
            edges.deep_view() == edges_of_feed_upto(
                reg.deep_view().associations,
                feed_id@,
                k as int,
            ),
        decreases reg.associations.len() - k,
    {
        let edge = &reg.associations[k];
        let ghost before = edges.deep_view();
        assert(reg.deep_view().associations[k as int] == edge.deep_view());
        if same_text(edge.feed_id.as_str(), feed_id) {
            edges.push(copy_edge(edge));
            assert(edges.deep_view() =~= before.push(edge.deep_view()));
        }
        k += 1;
    }
    edges
}

fn kind_of_feed(reg: &Registry, feed_id: &str) -> (kind: Option<FeedSpec>)
    ensures
        kind == kind_of(reg.deep_view(), feed_id@),
{
    match reg.find_feed(feed_id) {
        Some(at) => {
            assert(reg.deep_view().feeds[at as int] == reg.feeds@[at as int].deep_view());
            Some(reg.feeds[at].spec)
        },
        None => None,
    }
}

fn edges_of_kind(reg: &Registry, denylist: &Vec<String>, operator_id: &str, kind: FeedSpec) -> (edges:
    Vec<Association>)
    ensures
        edges.deep_view() == edges_of_operator(
            reg.deep_view(),
            denylist.deep_view(),
            operator_id@,
            kind,
        ),
{
    let mut edges: Vec<Association> = Vec::new();
    let mut k: usize = 0;
    assert(edges.deep_view() =~= Seq::empty());
    while k < reg.associations.len()
        invariant
            k <= reg.associations.len(),
            edges.deep_view() == edges_of_operator_upto(
                reg.deep_view(),
                denylist.deep_view(),
                operator_id@,
                kind,
                k as int,
            ),
        decreases reg.associations.len() - k,
    {
        let edge = &reg.associations[k];
        let ghost before = edges.deep_view();
        assert(reg.deep_view().associations[k as int] == edge.deep_view());
        let mut counts = same_text(edge.operator_id.as_str(), operator_id);
        if counts {
            counts = match kind_of_feed(reg, edge.feed_id.as_str()) {
                Some(found) => found == kind,
                None => false,
            };
        }
        if counts && kind == FeedSpec::Schedule {
            counts = !listed(denylist, edge.feed_id.as_str());
        }
        if counts {
            edges.push(copy_edge(edge));
            assert(edges.deep_view() =~= before.push(edge.deep_view()));
        }
        k += 1;
    }
    edges
}

/// The feeds of an operator by kind, once the registry is complete: its
/// schedule feeds without the denylisted ones, and its realtime feeds, each
/// list in the order of the edges.
pub fn operator_feeds(reg: &Registry, denylist: &Vec<String>, operator_id: &str) -> (feeds:
    OperatorFeeds)
    ensures
        feeds.operator_id@ == operator_id@,
        feeds.static_feeds.deep_view() == edges_of_operator(
            reg.deep_view(),
            denylist.deep_view(),
            operator_id@,
            FeedSpec::Schedule,
        ),
        feeds.realtime_feeds.deep_view() == edges_of_operator(
            reg.deep_view(),
            denylist.deep_view(),
            operator_id@,
            FeedSpec::Realtime,
        ),
{
    OperatorFeeds {
        operator_id: operator_id.to_owned(),
        static_feeds: edges_of_kind(reg, denylist, operator_id, FeedSpec::Schedule),
        realtime_feeds: edges_of_kind(reg, denylist, operator_id, FeedSpec::Realtime),
    }
}

/// The first `n` edges without those between the feed and the operator.
pub open spec fn without_pair_upto(
    edges: Seq<AssociationView>,
    feed_id: Seq<char>,
    operator_id: Seq<char>,
    n: int,
) -> Seq<AssociationView>
    decreases n,
{
    if n <= 0 {
        Seq::empty()
    } else if edges[n - 1].feed_id == feed_id && edges[n - 1].operator_id == operator_id {
        without_pair_upto(edges, feed_id, operator_id, n - 1)
    } else {
        without_pair_upto(edges, feed_id, operator_id, n - 1).push(edges[n - 1])
    }
}

/// The edges after one line of the list is put in: the realtime feed and the
/// operator are joined by one edge, under no agency, whatever joined them
/// before.
pub open spec fn overridden(edges: Seq<AssociationView>, line: (Seq<char>, Seq<char>)) -> Seq<
    AssociationView,
> {
    without_pair_upto(edges, line.0, line.1, edges.len() as int).push(
        AssociationView { feed_id: line.0, operator_id: line.1, agency_id: None },
    )
}

/// The edges after the first `n` lines of the list are put in.
pub open spec fn overridden_upto(
    edges: Seq<AssociationView>,
    lines: Seq<(Seq<char>, Seq<char>)>,
    n: int,
) -> Seq<AssociationView>
    decreases n,
{
    if n <= 0 {
        edges
    } else {
        overridden(overridden_upto(edges, lines, n - 1), lines[n - 1])
    }
}

/// Whether the edge joins the feed and the operator of the line.
pub open spec fn joins(edge: AssociationView, line: (Seq<char>, Seq<char>)) -> bool {
    edge.feed_id == line.0 && edge.operator_id == line.1
}

/// What is left of the first `n` edges without a pair: the edges among them
/// that do not join the pair, and no edge twice that was not there twice.
proof fn lemma_without_pair(edges: Seq<AssociationView>, line: (Seq<char>, Seq<char>), n: int)
    requires
        0 <= n <= edges.len(),
    ensures
        forall|e: AssociationView|
            #[trigger] without_pair_upto(edges, line.0, line.1, n).contains(e) <==> (!joins(
                e,
                line,
            ) && exists|j: int| 0 <= j < n && edges[j] == e),
        edges.no_duplicates() ==> without_pair_upto(edges, line.0, line.1, n).no_duplicates(),
        (forall|j: int| 0 <= j < n ==> !joins(#[trigger] edges[j], line)) ==> without_pair_upto(
            edges,
            line.0,
            line.1,
            n,
        ) == edges.take(n),
    decreases n,
{
    let left = without_pair_upto(edges, line.0, line.1, n);
    if n > 0 {
        lemma_without_pair(edges, line, n - 1);
        let before = without_pair_upto(edges, line.0, line.1, n - 1);
        let last = edges[n - 1];
        assert forall|e: AssociationView| #[trigger] left.contains(e) <==> (!joins(e, line)
            && exists|j: int| 0 <= j < n && edges[j] == e) by {
            if left.contains(e) {
                let k = choose|k: int| 0 <= k < left.len() && left[k] == e;
                if k < before.len() {
                    assert(before[k] == e);
                    assert(before.contains(e));
                    let j = choose|j: int| 0 <= j < n - 1 && edges[j] == e;
                    assert(0 <= j < n && edges[j] == e);
                } else {
                    assert(edges[n - 1] == e);
                }
            }
            if !joins(e, line) && exists|j: int| 0 <= j < n && edges[j] == e {
                let j = choose|j: int| 0 <= j < n && edges[j] == e;
                if j < n - 1 {
                    assert(before.contains(e));
                    let k = choose|k: int| 0 <= k < before.len() && before[k] == e;
                    assert(left[k] == e);
                } else {
                    assert(left[left.len() - 1] == e);
                }
            }
        }
        if edges.no_duplicates() && !joins(last, line) {
            assert(!before.contains(last)) by {
                if before.contains(last) {
                    let j = choose|j: int| 0 <= j < n - 1 && edges[j] == last;
                    assert(edges[j] != edges[n - 1]);
                }
            }
            assert forall|a: int, b: int|
                0 <= a < left.len() && 0 <= b < left.len() && a != b implies left[a]
                != left[b] by {
                if a < before.len() && b < before.len() {
                    assert(before[a] != before[b]);
                } else if a < before.len() {
                    assert(before.contains(before[a]));
                } else {
                    assert(before.contains(before[b]));
                }
            }
        }
        if forall|j: int| 0 <= j < n ==> !joins(#[trigger] edges[j], line) {
            assert(!joins(edges[n - 1], line));
            assert(edges.take(n) =~= edges.take(n - 1).push(last));
        }
    } else {
        assert(edges.take(0) =~= Seq::<AssociationView>::empty());
    }
}

/// Putting a line in leaves one edge between its feed and its operator, the
/// one under no agency, and touches no other edge. It adds no edge twice,
/// and putting the same line in once more changes nothing.
pub proof fn lemma_overridden(edges: Seq<AssociationView>, line: (Seq<char>, Seq<char>))
    ensures
        forall|e: AssociationView|
            joins(e, line) ==> (#[trigger] overridden(edges, line).contains(e) <==> e
                == AssociationView { feed_id: line.0, operator_id: line.1, agency_id: None }),
        forall|e: AssociationView|
            !joins(e, line) ==> (#[trigger] overridden(edges, line).contains(e) <==> edges.contains(
                e,
            )),
        edges.no_duplicates() ==> overridden(edges, line).no_duplicates(),
        overridden(overridden(edges, line), line) == overridden(edges, line),
{
    let n = edges.len() as int;
    let left = without_pair_upto(edges, line.0, line.1, n);
    let put = AssociationView { feed_id: line.0, operator_id: line.1, agency_id: None };
    let after = left.push(put);
    lemma_without_pair(edges, line, n);
    assert forall|e: AssociationView| #[trigger] after.contains(e) <==> (left.contains(e) || e
        == put) by {
        if after.contains(e) {
            let k = choose|k: int| 0 <= k < after.len() && after[k] == e;
            if k < left.len() {
                assert(left[k] == e);
            }
        }
        if left.contains(e) {
            let k = choose|k: int| 0 <= k < left.len() && left[k] == e;
            assert(after[k] == e);
        }
        if e == put {
            assert(after[after.len() - 1] == e);
        }
    }
    assert forall|e: AssociationView| !joins(e, line) implies (#[trigger] after.contains(e)
        <==> edges.contains(e)) by {
        if edges.contains(e) {
            let j = choose|j: int| 0 <= j < edges.len() && edges[j] == e;
            assert(0 <= j < n && edges[j] == e);
        }
    }
    if edges.no_duplicates() {
        assert(!left.contains(put));
        assert forall|a: int, b: int|
            0 <= a < after.len() && 0 <= b < after.len() && a != b implies after[a]
            != after[b] by {
            if a < left.len() && b < left.len() {
                assert(left[a] != left[b]);
            } else if a < left.len() {
                assert(left.contains(left[a]));
            } else {
                assert(left.contains(left[b]));
            }
        }
    }
    // once more: the edge that was put is taken out and put again
    assert forall|j: int| 0 <= j < left.len() implies !joins(#[trigger] after[j], line) by {
        assert(left.contains(left[j]));
    }
    lemma_without_pair(after, line, left.len() as int);
    assert(after.take(left.len() as int) =~= left);
    assert(without_pair_upto(after, line.0, line.1, after.len() as int) == left);
}

/// Puts one line of the list into the registry.
pub fn apply_override(reg: &mut Registry, line: &RealtimeOverride)
    ensures
        final(reg).deep_view().associations == overridden(
            old(reg).deep_view().associations,
            line.deep_view(),
        ),
        final(reg).deep_view().feeds == old(reg).deep_view().feeds,
        final(reg).deep_view().operators == old(reg).deep_view().operators,
{
    let ghost before = reg.deep_view().associations;
    let mut kept: Vec<Association> = Vec::new();
    let mut k: usize = 0;
    assert(kept.deep_view() =~= Seq::empty());
    while k < reg.associations.len()
        invariant
            k <= reg.associations.len(),
            *reg == *old(reg),
            before == reg.deep_view().associations,
            kept.deep_view() == without_pair_upto(
                before,
                line.realtime_id@,
                line.operator_id@,
                k as int,
            ),
        decreases reg.associations.len() - k,
    {
        let edge = &reg.associations[k];
        let ghost so_far = kept.deep_view();
        assert(before[k as int] == edge.deep_view());
        if !(same_text(edge.feed_id.as_str(), line.realtime_id.as_str()) && same_text(
            edge.operator_id.as_str(),
            line.operator_id.as_str(),
        )) {
            kept.push(copy_edge(edge));
            assert(kept.deep_view() =~= so_far.push(edge.deep_view()));
        }
        k += 1;
    }
    let ghost so_far = kept.deep_view();
    kept.push(
        Association {
            feed_id: line.realtime_id.clone(),
            operator_id: line.operator_id.clone(),
            agency_id: None,
        },
    );
    assert(kept.deep_view() =~= so_far.push(
        AssociationView {
            feed_id: line.realtime_id@,
            operator_id: line.operator_id@,
            agency_id: None,
        },
    ));
    reg.associations = kept;
}

/// Puts the lines of the list into the registry, in their order.
pub fn apply_overrides(reg: &mut Registry, lines: &Vec<RealtimeOverride>)
    ensures
        final(reg).deep_view().associations == overridden_upto(
            old(reg).deep_view().associations,
            lines.deep_view(),
            lines.len() as int,
        ),
        final(reg).deep_view().feeds == old(reg).deep_view().feeds,
        final(reg).deep_view().operators == old(reg).deep_view().operators,
{
    let mut k: usize = 0;
    while k < lines.len()
        invariant
            k <= lines.len(),
            reg.deep_view().associations == overridden_upto(
                old(reg).deep_view().associations,
                lines.deep_view(),
                k as int,
            ),
            reg.deep_view().feeds == old(reg).deep_view().feeds,
            reg.deep_view().operators == old(reg).deep_view().operators,
        decreases lines.len() - k,
    {
        assert(lines.deep_view()[k as int] == lines@[k as int].deep_view());
        apply_override(reg, &lines[k]);
        k += 1;
    }
}

/// What `csv::Reader` reads from a text: for each record after the header
/// its fields, or nothing where the record is refused.
pub uninterp spec fn csv_records(text: Seq<char>) -> Seq<Option<Seq<Seq<char>>>>;

/// `csv::Reader::from_reader` over the bytes of the text, and its `records`:
/// the first record is taken for the header and left out; each later record
/// gives its fields as text, or an error. What comes out depends on the text
/// alone.
#[verifier::external_body]
fn read_records(text: &str) -> (rows: Vec<Option<Vec<String>>>)
    ensures
        rows.deep_view() == csv_records(text@),
{
    let mut reader = csv::Reader::from_reader(text.as_bytes());
    reader.records().map(
        |record| match record {
            Ok(fields) => Some(fields.iter().map(|field| field.to_string()).collect()),
            Err(_) => None,
        },
    ).collect()
}

/// The lines that the first `n` records give: a record of two fields or more
/// gives a line of its first two, the realtime feed and the operator; a
/// shorter record and a refused one give none.
pub open spec fn lines_upto(rows: Seq<Option<Seq<Seq<char>>>>, n: int) -> Seq<
    (Seq<char>, Seq<char>),
>
    decreases n,
{
    if n <= 0 {
        Seq::empty()
    } else {
        match rows[n - 1] {
            Some(fields) => if fields.len() >= 2 {
                lines_upto(rows, n - 1).push((fields[0], fields[1]))
            } else {
                lines_upto(rows, n - 1)
            },
            None => lines_upto(rows, n - 1),
        }
    }
}

/// The lines that the records give.
pub open spec fn lines_of(rows: Seq<Option<Seq<Seq<char>>>>) -> Seq<(Seq<char>, Seq<char>)> {
    lines_upto(rows, rows.len() as int)
}

/// Makes the list of realtime feeds from the records of its file.
pub fn overrides_from_rows(rows: &Vec<Option<Vec<String>>>) -> (lines: Vec<RealtimeOverride>)
    ensures
        lines.deep_view() == lines_of(rows.deep_view()),
{
    let mut lines: Vec<RealtimeOverride> = Vec::new();
    let mut k: usize = 0;
    assert(lines.deep_view() =~= Seq::empty());
    while k < rows.len()
        invariant
            k <= rows.len(),
            lines.deep_view() == lines_upto(rows.deep_view(), k as int),
        decreases rows.len() - k,
    {
        let ghost before = lines.deep_view();
        assert(rows.deep_view()[k as int] == rows@[k as int].deep_view());
        match &rows[k] {
            Some(fields) => {
                if fields.len() >= 2 {
                    assert(fields.deep_view()[0] == fields@[0]@);
                    assert(fields.deep_view()[1] == fields@[1]@);
                    lines.push(
                        RealtimeOverride {
                            realtime_id: fields[0].clone(),
                            operator_id: fields[1].clone(),
                        },
                    );
                    assert(lines.deep_view() =~= before.push((fields@[0]@, fields@[1]@)));
                }
            },
            None => {},
        }
        k += 1;
    }
    lines
}

/// Reads the list of realtime feeds from the text of its file.
pub fn parse_overrides(text: &str) -> (lines: Vec<RealtimeOverride>)
    ensures
        lines.deep_view() == lines_of(csv_records(text@)),
{
    let rows = read_records(text);
    overrides_from_rows(&rows)
}

} // verus!
