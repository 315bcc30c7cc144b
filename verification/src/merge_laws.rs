//! What holds of every merged registry: which edges it has, that the order
//! of the documents does not change them, that nothing is held twice, and
//! which record of a feed stays.

use crate::registry::{
    absorbed, empty_registry, feed_at, feed_at_from, feed_record_of, link_of, merged,
    merged_upto, operator_at, operator_at_from, operator_record_of, with_feed,
    with_feed_entries_upto, with_link, with_operator, with_operator_entries_upto,
    with_operator_entry, with_references_upto, AssociationView, FeedEntryView,
    FeedRecordView, OperatorEntryView, OperatorRecordView, RegistryDocumentView, RegistryView,
};
use vstd::prelude::*;

verus! {

/// The edges of a registry, as a set.
pub open spec fn edges(reg: RegistryView) -> Set<AssociationView> {
    reg.associations.to_set()
}

/// The edges that the first `n` references of an operator entry make.
pub open spec fn reference_links_upto(
    entry: OperatorEntryView,
    enclosing: Option<Seq<char>>,
    n: int,
) -> Set<AssociationView> {
    Set::new(
        |e: AssociationView|
            exists|k: int|
                0 <= k < n && k < entry.associated_feeds.len() && link_of(
                    entry.id,
                    enclosing,
                    #[trigger] entry.associated_feeds[k],
                ) == Some(e),
    )
}

/// The edges that one operator entry makes.
pub open spec fn entry_links(
    entry: OperatorEntryView,
    enclosing: Option<Seq<char>>,
) -> Set<AssociationView> {
    if entry.associated_feeds.len() == 0 {
        match enclosing {
            Some(feed_id) => Set::empty().insert(
                AssociationView { feed_id, operator_id: entry.id, agency_id: None },
            ),
            None => Set::empty(),
        }
    } else {
        reference_links_upto(entry, enclosing, entry.associated_feeds.len() as int)
    }
}

/// The edges that the first `n` operator entries of a list make.
pub open spec fn entries_links_upto(
    entries: Seq<OperatorEntryView>,
    enclosing: Option<Seq<char>>,
    n: int,
) -> Set<AssociationView> {
    Set::new(
        |e: AssociationView|
            exists|j: int|
                0 <= j < n && j < entries.len() && entry_links(
                    #[trigger] entries[j],
                    enclosing,
                ).contains(e),
    )
}

/// The edges that the operators named inside a feed entry make.
pub open spec fn feed_entry_links(entry: FeedEntryView) -> Set<AssociationView> {
    entries_links_upto(entry.operators, Some(entry.id), entry.operators.len() as int)
}

/// The edges that the first `n` feed entries of a list make.
pub open spec fn feed_entries_links_upto(entries: Seq<FeedEntryView>, n: int) -> Set<
    AssociationView,
> {
    Set::new(
        |e: AssociationView|
            exists|i: int|
                0 <= i < n && i < entries.len() && feed_entry_links(#[trigger] entries[i]).contains(
                    e,
                ),
    )
}

/// The edges that one document makes.
pub open spec fn document_links(doc: RegistryDocumentView) -> Set<AssociationView> {
    feed_entries_links_upto(doc.feeds, doc.feeds.len() as int).union(
        entries_links_upto(doc.operators, None, doc.operators.len() as int),
    )
}

/// The edges that the first `n` documents make between them.
pub open spec fn links_upto(docs: Seq<RegistryDocumentView>, n: int) -> Set<AssociationView> {
    Set::new(
        |e: AssociationView|
            exists|d: int|
                0 <= d < n && d < docs.len() && document_links(#[trigger] docs[d]).contains(e),
    )
}

/// The edges that the documents make between them.
pub open spec fn all_links(docs: Seq<RegistryDocumentView>) -> Set<AssociationView> {
    links_upto(docs, docs.len() as int)
}

/// Whether the registry holds each feed id once, each operator id once, and
/// each edge once.
pub open spec fn well_formed(reg: RegistryView) -> bool {
    &&& forall|i: int, j: int|
        0 <= i < j < reg.feeds.len() ==> (#[trigger] reg.feeds[i]).id != (
        #[trigger] reg.feeds[j]).id
    &&& forall|i: int, j: int|
        0 <= i < j < reg.operators.len() ==> (#[trigger] reg.operators[i]).id != (
        #[trigger] reg.operators[j]).id
    &&& reg.associations.no_duplicates()
}

/// What `feed_at_from` finds is the first feed with the id.
pub proof fn lemma_feed_at(feeds: Seq<FeedRecordView>, id: Seq<char>, from: int)
    requires
        0 <= from,
    ensures
        match feed_at_from(feeds, id, from) {
            Some(at) => from <= at < feeds.len() && feeds[at].id == id && forall|k: int|
                from <= k < at ==> (#[trigger] feeds[k]).id != id,
            None => forall|k: int| from <= k < feeds.len() ==> (#[trigger] feeds[k]).id != id,
        },
    decreases feeds.len() - from,
{
    if from < feeds.len() && feeds[from].id != id {
        lemma_feed_at(feeds, id, from + 1);
    }
}

/// What `operator_at_from` finds is the first operator with the id.
pub proof fn lemma_operator_at(operators: Seq<OperatorRecordView>, id: Seq<char>, from: int)
    requires
        0 <= from,
    ensures
        match operator_at_from(operators, id, from) {
            Some(at) => from <= at < operators.len() && operators[at].id == id && forall|k: int|
                from <= k < at ==> (#[trigger] operators[k]).id != id,
            None => forall|k: int|
                from <= k < operators.len() ==> (#[trigger] operators[k]).id != id,
        },
    decreases operators.len() - from,
{
    if from < operators.len() && operators[from].id != id {
        lemma_operator_at(operators, id, from + 1);
    }
}

/// Writing a feed record keeps the registry well formed and its edges.
pub proof fn lemma_with_feed(reg: RegistryView, record: FeedRecordView)
    requires
        well_formed(reg),
    ensures
        well_formed(with_feed(reg, record)),
        with_feed(reg, record).associations == reg.associations,
        with_feed(reg, record).operators == reg.operators,
{
    lemma_feed_at(reg.feeds, record.id, 0);
    let after = with_feed(reg, record).feeds;
    assert forall|i: int, j: int| 0 <= i < j < after.len() implies (#[trigger] after[i]).id != (
    #[trigger] after[j]).id by {
        match feed_at(reg.feeds, record.id) {
            Some(at) => {
                assert(reg.feeds[i].id != reg.feeds[j].id);
                assert(after[i].id == reg.feeds[i].id);
                assert(after[j].id == reg.feeds[j].id);
            },
            None => {
                if j < reg.feeds.len() {
                    assert(reg.feeds[i].id != reg.feeds[j].id);
                } else {
                    assert(reg.feeds[i].id != record.id);
                }
            },
        }
    }
}

/// Writing an operator record keeps the registry well formed, its edges and
/// its feeds.
pub proof fn lemma_with_operator(reg: RegistryView, record: OperatorRecordView)
    requires
        well_formed(reg),
    ensures
        well_formed(with_operator(reg, record)),
        with_operator(reg, record).associations == reg.associations,
        with_operator(reg, record).feeds == reg.feeds,
{
    lemma_operator_at(reg.operators, record.id, 0);
    let after = with_operator(reg, record).operators;
    assert forall|i: int, j: int| 0 <= i < j < after.len() implies (#[trigger] after[i]).id != (
    #[trigger] after[j]).id by {
        match operator_at(reg.operators, record.id) {
            Some(at) => {
                assert(reg.operators[i].id != reg.operators[j].id);
                assert(after[i].id == reg.operators[i].id);
                assert(after[j].id == reg.operators[j].id);
            },
            None => {
                if j < reg.operators.len() {
                    assert(reg.operators[i].id != reg.operators[j].id);
                } else {
                    assert(reg.operators[i].id != record.id);
                }
            },
        }
    }
}

/// Adding an edge keeps the registry well formed and puts the edge into the
/// set of its edges; feeds and operators stay.
pub proof fn lemma_with_link(reg: RegistryView, edge: AssociationView)
    requires
        well_formed(reg),
    ensures
        well_formed(with_link(reg, edge)),
        edges(with_link(reg, edge)) == edges(reg).insert(edge),
        with_link(reg, edge).feeds == reg.feeds,
        with_link(reg, edge).operators == reg.operators,
{
    let after = with_link(reg, edge).associations;
    if reg.associations.contains(edge) {
        assert(edges(reg).insert(edge) =~= edges(reg));
    } else {
        assert forall|e: AssociationView| after.contains(e) <==> (reg.associations.contains(e) || e
            == edge) by {
            if after.contains(e) {
                let k = choose|k: int| 0 <= k < after.len() && after[k] == e;
                if k < reg.associations.len() {
                    assert(reg.associations[k] == e);
                }
            }
            if reg.associations.contains(e) {
                let k = choose|k: int| 0 <= k < reg.associations.len() && reg.associations[k] == e;
                assert(after[k] == e);
            }
            if e == edge {
                assert(after[after.len() - 1] == e);
            }
        }
        assert(edges(with_link(reg, edge)) =~= edges(reg).insert(edge));
        assert forall|i: int, j: int|
            0 <= i < after.len() && 0 <= j < after.len() && i != j implies after[i]
            != after[j] by {
            if i < reg.associations.len() && j < reg.associations.len() {
                assert(reg.associations[i] != reg.associations[j]);
            } else if i < reg.associations.len() {
                assert(reg.associations.contains(reg.associations[i]));
            } else {
                assert(reg.associations.contains(reg.associations[j]));
            }
        }
    }
}

/// The references of an operator entry add their edges and nothing else.
pub proof fn lemma_with_references(
    reg: RegistryView,
    entry: OperatorEntryView,
    enclosing: Option<Seq<char>>,
    n: int,
)
    requires
        well_formed(reg),
        0 <= n <= entry.associated_feeds.len(),
    ensures
        well_formed(with_references_upto(reg, entry, enclosing, n)),
        edges(with_references_upto(reg, entry, enclosing, n)) == edges(reg).union(
            reference_links_upto(entry, enclosing, n),
        ),
        with_references_upto(reg, entry, enclosing, n).feeds == reg.feeds,
        with_references_upto(reg, entry, enclosing, n).operators == reg.operators,
    decreases n,
{
    if n <= 0 {
        assert(edges(reg).union(reference_links_upto(entry, enclosing, n)) =~= edges(reg));
    } else {
        lemma_with_references(reg, entry, enclosing, n - 1);
        let before = with_references_upto(reg, entry, enclosing, n - 1);
        let reference = entry.associated_feeds[n - 1];
        let so_far = reference_links_upto(entry, enclosing, n - 1);
        let now = reference_links_upto(entry, enclosing, n);
        match link_of(entry.id, enclosing, reference) {
            Some(edge) => {
                lemma_with_link(before, edge);
                assert forall|e: AssociationView| now.contains(e) <==> (so_far.contains(e) || e
                    == edge) by {
                    if now.contains(e) {
                        let k = choose|k: int|
                            0 <= k < n && k < entry.associated_feeds.len() && link_of(
                                entry.id,
                                enclosing,
                                #[trigger] entry.associated_feeds[k],
                            ) == Some(e);
                        if k < n - 1 {
                            assert(so_far.contains(e));
                        }
                    }
                    if so_far.contains(e) {
                        let k = choose|k: int|
                            0 <= k < n - 1 && k < entry.associated_feeds.len() && link_of(
                                entry.id,
                                enclosing,
                                #[trigger] entry.associated_feeds[k],
                            ) == Some(e);
                        assert(0 <= k < n);
                    }
                    if e == edge {
                        assert(link_of(entry.id, enclosing, entry.associated_feeds[n - 1]) == Some(
                            e,
                        ));
                    }
                }
                assert(edges(reg).union(now) =~= edges(reg).union(so_far).insert(edge));
            },
            None => {
                assert forall|e: AssociationView| now.contains(e) <==> so_far.contains(e) by {
                    if now.contains(e) {
                        let k = choose|k: int|
                            0 <= k < n && k < entry.associated_feeds.len() && link_of(
                                entry.id,
                                enclosing,
                                #[trigger] entry.associated_feeds[k],
                            ) == Some(e);
                        assert(k < n - 1);
                    }
                    if so_far.contains(e) {
                        let k = choose|k: int|
                            0 <= k < n - 1 && k < entry.associated_feeds.len() && link_of(
                                entry.id,
                                enclosing,
                                #[trigger] entry.associated_feeds[k],
                            ) == Some(e);
                        assert(0 <= k < n);
                    }
                }
                assert(now =~= so_far);
            },
        }
    }
}

/// An operator entry adds its edges and nothing else, and leaves the feeds.
pub proof fn lemma_with_operator_entry(
    reg: RegistryView,
    entry: OperatorEntryView,
    enclosing: Option<Seq<char>>,
)
    requires
        well_formed(reg),
    ensures
        well_formed(with_operator_entry(reg, entry, enclosing)),
        edges(with_operator_entry(reg, entry, enclosing)) == edges(reg).union(
            entry_links(entry, enclosing),
        ),
        with_operator_entry(reg, entry, enclosing).feeds == reg.feeds,
{
    lemma_with_operator(reg, operator_record_of(entry));
    let named = with_operator(reg, operator_record_of(entry));
    assert(edges(named) == edges(reg));
    if entry.associated_feeds.len() == 0 {
        match enclosing {
            Some(feed_id) => {
                let edge = AssociationView { feed_id, operator_id: entry.id, agency_id: None };
                lemma_with_link(named, edge);
                assert(edges(reg).union(Set::empty().insert(edge)) =~= edges(reg).insert(edge));
            },
            None => {
                assert(edges(reg).union(Set::empty()) =~= edges(reg));
            },
        }
    } else {
        lemma_with_references(named, entry, enclosing, entry.associated_feeds.len() as int);
    }
}

/// A list of operator entries adds the edges of its entries and nothing
/// else, and leaves the feeds.
pub proof fn lemma_with_operator_entries(
    reg: RegistryView,
    entries: Seq<OperatorEntryView>,
    enclosing: Option<Seq<char>>,
    n: int,
)
    requires
        well_formed(reg),
        0 <= n <= entries.len(),
    ensures
        well_formed(with_operator_entries_upto(reg, entries, enclosing, n)),
        edges(with_operator_entries_upto(reg, entries, enclosing, n)) == edges(reg).union(
            entries_links_upto(entries, enclosing, n),
        ),
        with_operator_entries_upto(reg, entries, enclosing, n).feeds == reg.feeds,
    decreases n,
{
    if n <= 0 {
        assert(edges(reg).union(entries_links_upto(entries, enclosing, n)) =~= edges(reg));
    } else {
        lemma_with_operator_entries(reg, entries, enclosing, n - 1);
        let before = with_operator_entries_upto(reg, entries, enclosing, n - 1);
        lemma_with_operator_entry(before, entries[n - 1], enclosing);
        let so_far = entries_links_upto(entries, enclosing, n - 1);
        let now = entries_links_upto(entries, enclosing, n);
        let last = entry_links(entries[n - 1], enclosing);
        assert forall|e: AssociationView| now.contains(e) <==> (so_far.contains(e) || last.contains(
            e,
        )) by {
            if now.contains(e) {
                let j = choose|j: int|
                    0 <= j < n && j < entries.len() && entry_links(
                        #[trigger] entries[j],
                        enclosing,
                    ).contains(e);
                if j < n - 1 {
                    assert(so_far.contains(e));
                }
            }
            if so_far.contains(e) {
                let j = choose|j: int|
                    0 <= j < n - 1 && j < entries.len() && entry_links(
                        #[trigger] entries[j],
                        enclosing,
                    ).contains(e);
                assert(0 <= j < n);
            }
            if last.contains(e) {
                assert(entry_links(entries[n - 1], enclosing).contains(e));
            }
        }
        assert(edges(reg).union(now) =~= edges(reg).union(so_far).union(last));
    }
}

/// A list of feed entries adds the edges of the operators named in them and
/// nothing else.
pub proof fn lemma_with_feed_entries(reg: RegistryView, entries: Seq<FeedEntryView>, n: int)
    requires
        well_formed(reg),
        0 <= n <= entries.len(),
    ensures
        well_formed(with_feed_entries_upto(reg, entries, n)),
        edges(with_feed_entries_upto(reg, entries, n)) == edges(reg).union(
            feed_entries_links_upto(entries, n),
        ),
    decreases n,
{
    if n <= 0 {
        assert(edges(reg).union(feed_entries_links_upto(entries, n)) =~= edges(reg));
    } else {
        lemma_with_feed_entries(reg, entries, n - 1);
        let before = with_feed_entries_upto(reg, entries, n - 1);
        let entry = entries[n - 1];
        lemma_with_feed(before, feed_record_of(entry));
        let written = with_feed(before, feed_record_of(entry));
        assert(edges(written) == edges(before));
        lemma_with_operator_entries(
            written,
            entry.operators,
            Some(entry.id),
            entry.operators.len() as int,
        );
        let so_far = feed_entries_links_upto(entries, n - 1);
        let now = feed_entries_links_upto(entries, n);
        let last = feed_entry_links(entry);
        assert forall|e: AssociationView| now.contains(e) <==> (so_far.contains(e) || last.contains(
            e,
        )) by {
            if now.contains(e) {
                let i = choose|i: int|
                    0 <= i < n && i < entries.len() && feed_entry_links(
                        #[trigger] entries[i],
                    ).contains(e);
                if i < n - 1 {
                    assert(so_far.contains(e));
                }
            }
            if so_far.contains(e) {
                let i = choose|i: int|
                    0 <= i < n - 1 && i < entries.len() && feed_entry_links(
                        #[trigger] entries[i],
                    ).contains(e);
                assert(0 <= i < n);
            }
            if last.contains(e) {
                assert(feed_entry_links(entries[n - 1]).contains(e));
            }
        }
        assert(edges(reg).union(now) =~= edges(reg).union(so_far).union(last));
    }
}

/// A document adds its edges to those of the registry and takes none away.
pub proof fn lemma_absorbed(reg: RegistryView, doc: RegistryDocumentView)
    requires
        well_formed(reg),
    ensures
        well_formed(absorbed(reg, doc)),
        edges(absorbed(reg, doc)) == edges(reg).union(document_links(doc)),
{
    lemma_with_feed_entries(reg, doc.feeds, doc.feeds.len() as int);
    let fed = with_feed_entries_upto(reg, doc.feeds, doc.feeds.len() as int);
    lemma_with_operator_entries(fed, doc.operators, None, doc.operators.len() as int);
    assert(edges(absorbed(reg, doc)) =~= edges(reg).union(document_links(doc)));
}

/// The registry of the first `n` documents is well formed, and its edges are
/// those that the documents make: the union over the documents.
pub proof fn lemma_merged_upto(docs: Seq<RegistryDocumentView>, n: int)
    requires
        0 <= n <= docs.len(),
    ensures
        well_formed(merged_upto(docs, n)),
        edges(merged_upto(docs, n)) == links_upto(docs, n),
    decreases n,
{
    if n <= 0 {
        assert(edges(empty_registry()) =~= links_upto(docs, n));
    } else {
        lemma_merged_upto(docs, n - 1);
        lemma_absorbed(merged_upto(docs, n - 1), docs[n - 1]);
        let so_far = links_upto(docs, n - 1);
        let now = links_upto(docs, n);
        let last = document_links(docs[n - 1]);
        assert forall|e: AssociationView| now.contains(e) <==> (so_far.contains(e) || last.contains(
            e,
        )) by {
            if now.contains(e) {
                let d = choose|d: int|
                    0 <= d < n && d < docs.len() && document_links(#[trigger] docs[d]).contains(e);
                if d < n - 1 {
                    assert(so_far.contains(e));
                }
            }
            if so_far.contains(e) {
                let d = choose|d: int|
                    0 <= d < n - 1 && d < docs.len() && document_links(#[trigger] docs[d]).contains(
                        e,
                    );
                assert(0 <= d < n);
            }
            if last.contains(e) {
                assert(document_links(docs[n - 1]).contains(e));
            }
        }
        assert(now =~= so_far.union(last));
    }
}

/// The merged registry holds every feed id once, every operator id once and
/// every edge once, and its edges are exactly those that some document makes.
pub proof fn lemma_merged(docs: Seq<RegistryDocumentView>)
    ensures
        well_formed(merged(docs)),
        edges(merged(docs)) == all_links(docs),
{
    lemma_merged_upto(docs, docs.len() as int);
}

/// Merging is commutative on the edges: two lists that hold the same
/// documents, in whatever order, give registries with the same set of edges.
pub proof fn lemma_merge_order_keeps_edges(
    first: Seq<RegistryDocumentView>,
    second: Seq<RegistryDocumentView>,
)
    requires
        first.to_multiset() =~= second.to_multiset(),
    ensures
        edges(merged(first)) == edges(merged(second)),
{
    broadcast use vstd::seq_lib::group_to_multiset_ensures;

    lemma_merged(first);
    lemma_merged(second);
    assert forall|e: AssociationView| all_links(first).contains(e) <==> all_links(second).contains(
        e,
    ) by {
        if all_links(first).contains(e) {
            let d = choose|d: int|
                0 <= d < first.len() && d < first.len() && document_links(
                    #[trigger] first[d],
                ).contains(e);
            assert(first.contains(first[d]));
            assert(first.to_multiset().count(first[d]) > 0);
            assert(second.to_multiset().count(first[d]) > 0);
            assert(second.contains(first[d]));
            let d2 = choose|d2: int| 0 <= d2 < second.len() && second[d2] == first[d];
            assert(document_links(second[d2]).contains(e));
        }
        if all_links(second).contains(e) {
            let d = choose|d: int|
                0 <= d < second.len() && d < second.len() && document_links(
                    #[trigger] second[d],
                ).contains(e);
            assert(second.contains(second[d]));
            assert(second.to_multiset().count(second[d]) > 0);
            assert(first.to_multiset().count(second[d]) > 0);
            assert(first.contains(second[d]));
            let d1 = choose|d1: int| 0 <= d1 < first.len() && first[d1] == second[d];
            assert(document_links(first[d1]).contains(e));
        }
    }
    assert(all_links(first) =~= all_links(second));
}

/// The record that the registry holds for a feed id.
pub open spec fn feed_record(reg: RegistryView, id: Seq<char>) -> Option<FeedRecordView> {
    match feed_at(reg.feeds, id) {
        Some(at) => Some(reg.feeds[at]),
        None => None,
    }
}

/// The record of the last of the first `n` feed entries that has the id.
pub open spec fn last_listed_upto(entries: Seq<FeedEntryView>, id: Seq<char>, n: int) -> Option<
    FeedRecordView,
>
    decreases n,
{
    if n <= 0 {
        None
    } else if entries[n - 1].id == id {
        Some(feed_record_of(entries[n - 1]))
    } else {
        last_listed_upto(entries, id, n - 1)
    }
}

/// The record for the id in the last of the first `n` documents that lists
/// it, and there in the last entry that has it.
pub open spec fn last_written_upto(docs: Seq<RegistryDocumentView>, id: Seq<char>, n: int) -> Option<
    FeedRecordView,
>
    decreases n,
{
    if n <= 0 {
        None
    } else {
        match last_listed_upto(docs[n - 1].feeds, id, docs[n - 1].feeds.len() as int) {
            Some(record) => Some(record),
            None => last_written_upto(docs, id, n - 1),
        }
    }
}

/// After a feed record is written the registry answers with it for its id,
/// and as before for every other id.
pub proof fn lemma_feed_record_after_write(
    reg: RegistryView,
    record: FeedRecordView,
    id: Seq<char>,
)
    ensures
        feed_record(with_feed(reg, record), id) == if id == record.id {
            Some(record)
        } else {
            feed_record(reg, id)
        },
{
    let after = with_feed(reg, record).feeds;
    lemma_feed_at(reg.feeds, record.id, 0);
    lemma_feed_at(reg.feeds, id, 0);
    lemma_feed_at(after, id, 0);
    match feed_at(reg.feeds, record.id) {
        Some(at) => {
            assert forall|k: int| 0 <= k < after.len() implies (#[trigger] after[k]).id
                == reg.feeds[k].id by {}
            match feed_at(after, id) {
                Some(found) => {
                    assert(reg.feeds[found].id == id);
                    match feed_at(reg.feeds, id) {
                        Some(was) => {
                            assert(after[was].id == id);
                            assert(was == found);
                        },
                        None => {},
                    }
                },
                None => {
                    match feed_at(reg.feeds, id) {
                        Some(was) => {
                            assert(after[was].id == id);
                        },
                        None => {},
                    }
                },
            }
        },
        None => {
            match feed_at(after, id) {
                Some(found) => {
                    if found < reg.feeds.len() {
                        assert(reg.feeds[found].id == id);
                        match feed_at(reg.feeds, id) {
                            Some(was) => {
                                assert(after[was].id == id);
                                assert(was == found);
                            },
                            None => {},
                        }
                    } else {
                        match feed_at(reg.feeds, id) {
                            Some(was) => {
                                assert(after[was].id == id);
                            },
                            None => {},
                        }
                    }
                },
                None => {
                    assert(after[after.len() - 1].id == record.id);
                    match feed_at(reg.feeds, id) {
                        Some(was) => {
                            assert(after[was].id == id);
                        },
                        None => {},
                    }
                },
            }
        },
    }
}

/// After a list of feed entries the registry answers for an id with the last
/// entry that has it, and as before where none has it.
pub proof fn lemma_feed_record_after_entries(
    reg: RegistryView,
    entries: Seq<FeedEntryView>,
    id: Seq<char>,
    n: int,
)
    requires
        well_formed(reg),
        0 <= n <= entries.len(),
    ensures
        feed_record(with_feed_entries_upto(reg, entries, n), id) == match last_listed_upto(
            entries,
            id,
            n,
        ) {
            Some(record) => Some(record),
            None => feed_record(reg, id),
        },
    decreases n,
{
    if n > 0 {
        lemma_feed_record_after_entries(reg, entries, id, n - 1);
        lemma_with_feed_entries(reg, entries, n - 1);
        let before = with_feed_entries_upto(reg, entries, n - 1);
        let entry = entries[n - 1];
        lemma_feed_record_after_write(before, feed_record_of(entry), id);
        lemma_with_feed(before, feed_record_of(entry));
        lemma_with_operator_entries(
            with_feed(before, feed_record_of(entry)),
            entry.operators,
            Some(entry.id),
            entry.operators.len() as int,
        );
    }
}

/// Last write wins, for the record of a feed: the merged registry answers
/// for an id with the record from the last document that lists it. A feed
/// that no document lists has no record.
pub proof fn lemma_last_feed_record_wins(
    docs: Seq<RegistryDocumentView>,
    id: Seq<char>,
    n: int,
)
    requires
        0 <= n <= docs.len(),
    ensures
        feed_record(merged_upto(docs, n), id) == last_written_upto(docs, id, n),
    decreases n,
{
    if n > 0 {
        lemma_last_feed_record_wins(docs, id, n - 1);
        lemma_merged_upto(docs, n - 1);
        let before = merged_upto(docs, n - 1);
        let doc = docs[n - 1];
        lemma_feed_record_after_entries(before, doc.feeds, id, doc.feeds.len() as int);
        lemma_with_feed_entries(before, doc.feeds, doc.feeds.len() as int);
        lemma_with_operator_entries(
            with_feed_entries_upto(before, doc.feeds, doc.feeds.len() as int),
            doc.operators,
            None,
            doc.operators.len() as int,
        );
    }
}

/// The record that the registry holds for an operator id.
pub open spec fn operator_record(reg: RegistryView, id: Seq<char>) -> Option<OperatorRecordView> {
    match operator_at(reg.operators, id) {
        Some(at) => Some(reg.operators[at]),
        None => None,
    }
}

/// The record of the last of the first `n` operator entries that has the id.
pub open spec fn last_named_upto(entries: Seq<OperatorEntryView>, id: Seq<char>, n: int) -> Option<
    OperatorRecordView,
>
    decreases n,
{
    if n <= 0 {
        None
    } else if entries[n - 1].id == id {
        Some(operator_record_of(entries[n - 1]))
    } else {
        last_named_upto(entries, id, n - 1)
    }
}

/// The record for the id from the operators named inside the first `n` feed
/// entries: the last feed that names the operator counts.
pub open spec fn last_named_in_feeds_upto(entries: Seq<FeedEntryView>, id: Seq<char>, n: int) -> Option<
    OperatorRecordView,
>
    decreases n,
{
    if n <= 0 {
        None
    } else {
        match last_named_upto(entries[n - 1].operators, id, entries[n - 1].operators.len() as int) {
            Some(record) => Some(record),
            None => last_named_in_feeds_upto(entries, id, n - 1),
        }
    }
}

/// The record for the id that a document leaves: from its own list of
/// operators, which is taken last, else from the operators inside its feeds.
pub open spec fn last_named_in(doc: RegistryDocumentView, id: Seq<char>) -> Option<
    OperatorRecordView,
> {
    match last_named_upto(doc.operators, id, doc.operators.len() as int) {
        Some(record) => Some(record),
        None => last_named_in_feeds_upto(doc.feeds, id, doc.feeds.len() as int),
    }
}

/// The record for the id from the last of the first `n` documents that
/// names the operator.
pub open spec fn last_named_in_docs_upto(docs: Seq<RegistryDocumentView>, id: Seq<char>, n: int) -> Option<
    OperatorRecordView,
>
    decreases n,
{
    if n <= 0 {
        None
    } else {
        match last_named_in(docs[n - 1], id) {
            Some(record) => Some(record),
            None => last_named_in_docs_upto(docs, id, n - 1),
        }
    }
}

/// After an operator record is written the registry answers with it for its
/// id, and as before for every other id.
pub proof fn lemma_operator_record_after_write(
    reg: RegistryView,
    record: OperatorRecordView,
    id: Seq<char>,
)
    ensures
        operator_record(with_operator(reg, record), id) == if id == record.id {
            Some(record)
        } else {
            operator_record(reg, id)
        },
{
    let after = with_operator(reg, record).operators;
    lemma_operator_at(reg.operators, record.id, 0);
    lemma_operator_at(reg.operators, id, 0);
    lemma_operator_at(after, id, 0);
    match operator_at(reg.operators, record.id) {
        Some(at) => {
            assert forall|k: int| 0 <= k < after.len() implies (#[trigger] after[k]).id
                == reg.operators[k].id by {}
            match operator_at(after, id) {
                Some(found) => {
                    assert(reg.operators[found].id == id);
                },
                None => {},
            }
            match operator_at(reg.operators, id) {
                Some(was) => {
                    assert(after[was].id == id);
                },
                None => {},
            }
        },
        None => {
            match operator_at(after, id) {
                Some(found) => {
                    if found < reg.operators.len() {
                        assert(reg.operators[found].id == id);
                    }
                },
                None => {
                    assert(after[after.len() - 1].id == record.id);
                },
            }
            match operator_at(reg.operators, id) {
                Some(was) => {
                    assert(after[was].id == id);
                },
                None => {},
            }
        },
    }
}

/// After one operator entry the registry answers with its record for its id,
/// and as before for every other id.
pub proof fn lemma_operator_record_after_entry(
    reg: RegistryView,
    entry: OperatorEntryView,
    enclosing: Option<Seq<char>>,
    id: Seq<char>,
)
    requires
        well_formed(reg),
    ensures
        operator_record(with_operator_entry(reg, entry, enclosing), id) == if id == entry.id {
            Some(operator_record_of(entry))
        } else {
            operator_record(reg, id)
        },
{
    let record = operator_record_of(entry);
    lemma_operator_record_after_write(reg, record, id);
    lemma_with_operator(reg, record);
    let named = with_operator(reg, record);
    if entry.associated_feeds.len() == 0 {
        match enclosing {
            Some(feed_id) => {
                lemma_with_link(
                    named,
                    AssociationView { feed_id, operator_id: entry.id, agency_id: None },
                );
            },
            None => {},
        }
    } else {
        lemma_with_references(named, entry, enclosing, entry.associated_feeds.len() as int);
    }
}

/// After a list of operator entries the registry answers for an id with the
/// last entry that has it, and as before where none has it.
pub proof fn lemma_operator_record_after_entries(
    reg: RegistryView,
    entries: Seq<OperatorEntryView>,
    enclosing: Option<Seq<char>>,
    id: Seq<char>,
    n: int,
)
    requires
        well_formed(reg),
        0 <= n <= entries.len(),
    ensures
        operator_record(with_operator_entries_upto(reg, entries, enclosing, n), id)
            == match last_named_upto(entries, id, n) {
            Some(record) => Some(record),
            None => operator_record(reg, id),
        },
    decreases n,
{
    if n > 0 {
        lemma_operator_record_after_entries(reg, entries, enclosing, id, n - 1);
        lemma_with_operator_entries(reg, entries, enclosing, n - 1);
        lemma_operator_record_after_entry(
            with_operator_entries_upto(reg, entries, enclosing, n - 1),
            entries[n - 1],
            enclosing,
            id,
        );
    }
}

/// After a list of feed entries the registry answers for an operator id with
/// the last naming of the operator inside them, and as before where none
/// names it.
pub proof fn lemma_operator_record_after_feeds(
    reg: RegistryView,
    entries: Seq<FeedEntryView>,
    id: Seq<char>,
    n: int,
)
    requires
        well_formed(reg),
        0 <= n <= entries.len(),
    ensures
        operator_record(with_feed_entries_upto(reg, entries, n), id)
            == match last_named_in_feeds_upto(entries, id, n) {
            Some(record) => Some(record),
            None => operator_record(reg, id),
        },
    decreases n,
{
    if n > 0 {
        lemma_operator_record_after_feeds(reg, entries, id, n - 1);
        lemma_with_feed_entries(reg, entries, n - 1);
        let before = with_feed_entries_upto(reg, entries, n - 1);
        let entry = entries[n - 1];
        lemma_with_feed(before, feed_record_of(entry));
        lemma_operator_record_after_entries(
            with_feed(before, feed_record_of(entry)),
            entry.operators,
            Some(entry.id),
            id,
            entry.operators.len() as int,
        );
    }
}

/// Last write wins, for the record of an operator: the merged registry
/// answers for an id with the record from the last document that names the
/// operator. An operator that no document names has no record.
pub proof fn lemma_last_operator_record_wins(
    docs: Seq<RegistryDocumentView>,
    id: Seq<char>,
    n: int,
)
    requires
        0 <= n <= docs.len(),
    ensures
        operator_record(merged_upto(docs, n), id) == last_named_in_docs_upto(docs, id, n),
    decreases n,
{
    if n > 0 {
        lemma_last_operator_record_wins(docs, id, n - 1);
        lemma_merged_upto(docs, n - 1);
        let before = merged_upto(docs, n - 1);
        let doc = docs[n - 1];
        lemma_operator_record_after_feeds(before, doc.feeds, id, doc.feeds.len() as int);
        lemma_with_feed_entries(before, doc.feeds, doc.feeds.len() as int);
        lemma_operator_record_after_entries(
            with_feed_entries_upto(before, doc.feeds, doc.feeds.len() as int),
            doc.operators,
            None,
            id,
            doc.operators.len() as int,
        );
    }
}

/// Last write wins on the records and on nothing else: of the merged
/// registry, the record of a feed and the record of an operator are those of
/// the last document that gives one, while the edges are those of all
/// documents together.
pub proof fn lemma_last_write_wins(docs: Seq<RegistryDocumentView>, id: Seq<char>)
    ensures
        feed_record(merged(docs), id) == last_written_upto(docs, id, docs.len() as int),
        operator_record(merged(docs), id) == last_named_in_docs_upto(docs, id, docs.len() as int),
        edges(merged(docs)) == all_links(docs),
{
    lemma_last_feed_record_wins(docs, id, docs.len() as int);
    lemma_last_operator_record_wins(docs, id, docs.len() as int);
    lemma_merged(docs);
}

} // verus!
