//! The registry of feeds and operators, merged from the documents that
//! publish it piece by piece.

use crate::merge_laws::{all_links, edges, lemma_merged, well_formed};
use crate::text::{copy_optional_text, same_optional_text, same_text};
use vstd::prelude::*;

verus! {

/// What kind of data a feed publishes.
#[derive(Clone, Copy, Debug, PartialEq, Eq, Structural)]
pub enum FeedSpec {
    Schedule,
    Realtime,
    Other,
}

/// A feed as the registry knows it.
#[derive(Clone, Debug)]
pub struct FeedRecord {
    pub id: String,
    pub spec: FeedSpec,
    pub name: Option<String>,
    pub url: Option<String>,
}

/// What a `FeedRecord` holds, with each text as its sequence of characters.
pub struct FeedRecordView {
    pub id: Seq<char>,
    pub spec: FeedSpec,
    pub name: Option<Seq<char>>,
    pub url: Option<Seq<char>>,
}

impl DeepView for FeedRecord {
    type V = FeedRecordView;

    open spec fn deep_view(&self) -> FeedRecordView {
        FeedRecordView {
            id: self.id@,
            spec: self.spec,
            name: self.name.deep_view(),
            url: self.url.deep_view(),
        }
    }
}

/// An operator as the registry knows it.
#[derive(Clone, Debug)]
pub struct OperatorRecord {
    pub id: String,
    pub name: String,
}

/// What a `OperatorRecord` holds, with each text as its sequence of characters.
pub struct OperatorRecordView {
    pub id: Seq<char>,
    pub name: Seq<char>,
}

impl DeepView for OperatorRecord {
    type V = OperatorRecordView;

    open spec fn deep_view(&self) -> OperatorRecordView {
        OperatorRecordView { id: self.id@, name: self.name@ }
    }
}

/// One edge between a feed and an operator, with the agency under which the
/// feed lists the operator, where it says so. A feed and an operator may be
/// joined by several edges that differ in the agency.
#[derive(Clone, Debug)]
pub struct Association {
    pub feed_id: String,
    pub operator_id: String,
    pub agency_id: Option<String>,
}

/// What a `Association` holds, with each text as its sequence of characters.
pub struct AssociationView {
    pub feed_id: Seq<char>,
    pub operator_id: Seq<char>,
    pub agency_id: Option<Seq<char>>,
}

impl DeepView for Association {
    type V = AssociationView;

    open spec fn deep_view(&self) -> AssociationView {
        AssociationView {
            feed_id: self.feed_id@,
            operator_id: self.operator_id@,
            agency_id: self.agency_id.deep_view(),
        }
    }
}

/// A reference from an operator to a feed. Inside a feed's own entry the feed
/// id may be left out: the enclosing feed is meant.
#[derive(Clone, Debug)]
pub struct AssociatedFeed {
    pub feed_id: Option<String>,
    pub agency_id: Option<String>,
}

/// What a `AssociatedFeed` holds, with each text as its sequence of characters.
pub struct AssociatedFeedView {
    pub feed_id: Option<Seq<char>>,
    pub agency_id: Option<Seq<char>>,
}

impl DeepView for AssociatedFeed {
    type V = AssociatedFeedView;

    open spec fn deep_view(&self) -> AssociatedFeedView {
        AssociatedFeedView {
            feed_id: self.feed_id.deep_view(),
            agency_id: self.agency_id.deep_view(),
        }
    }
}

/// An operator as a document lists it.
#[derive(Clone, Debug)]
pub struct OperatorEntry {
    pub id: String,
    pub name: String,
    pub associated_feeds: Vec<AssociatedFeed>,
}

/// What a `OperatorEntry` holds, with each text as its sequence of characters.
pub struct OperatorEntryView {
    pub id: Seq<char>,
    pub name: Seq<char>,
    pub associated_feeds: Seq<AssociatedFeedView>,
}

impl DeepView for OperatorEntry {
    type V = OperatorEntryView;

    open spec fn deep_view(&self) -> OperatorEntryView {
        OperatorEntryView {
            id: self.id@,
            name: self.name@,
            associated_feeds: self.associated_feeds.deep_view(),
        }
    }
}

/// A feed as a document lists it, with the operators it names itself.
#[derive(Clone, Debug)]
pub struct FeedEntry {
    pub id: String,
    pub spec: FeedSpec,
    pub name: Option<String>,
    pub url: Option<String>,
    pub operators: Vec<OperatorEntry>,
}

/// What a `FeedEntry` holds, with each text as its sequence of characters.
pub struct FeedEntryView {
    pub id: Seq<char>,
    pub spec: FeedSpec,
    pub name: Option<Seq<char>>,
    pub url: Option<Seq<char>>,
    pub operators: Seq<OperatorEntryView>,
}

impl DeepView for FeedEntry {
    type V = FeedEntryView;

    open spec fn deep_view(&self) -> FeedEntryView {
        FeedEntryView {
            id: self.id@,
            spec: self.spec,
            name: self.name.deep_view(),
            url: self.url.deep_view(),
            operators: self.operators.deep_view(),
        }
    }
}

/// One document of the registry.
#[derive(Clone, Debug)]
pub struct RegistryDocument {
    pub feeds: Vec<FeedEntry>,
    pub operators: Vec<OperatorEntry>,
}

/// What a `RegistryDocument` holds, with each text as its sequence of characters.
pub struct RegistryDocumentView {
    pub feeds: Seq<FeedEntryView>,
    pub operators: Seq<OperatorEntryView>,
}

impl DeepView for RegistryDocument {
    type V = RegistryDocumentView;

    open spec fn deep_view(&self) -> RegistryDocumentView {
        RegistryDocumentView {
            feeds: self.feeds.deep_view(),
            operators: self.operators.deep_view(),
        }
    }
}

/// The merged registry: feeds and operators each once, in the order in which
/// they were first seen, and the list of edges between them.
#[derive(Clone, Debug)]
pub struct Registry {
    pub feeds: Vec<FeedRecord>,
    pub operators: Vec<OperatorRecord>,
    pub associations: Vec<Association>,
}

/// What a `Registry` holds, with each text as its sequence of characters.
pub struct RegistryView {
    pub feeds: Seq<FeedRecordView>,
    pub operators: Seq<OperatorRecordView>,
    pub associations: Seq<AssociationView>,
}

impl DeepView for Registry {
    type V = RegistryView;

    open spec fn deep_view(&self) -> RegistryView {
        RegistryView {
            feeds: self.feeds.deep_view(),
            operators: self.operators.deep_view(),
            associations: self.associations.deep_view(),
        }
    }
}

/// The registry before any document.
pub open spec fn empty_registry() -> RegistryView {
    RegistryView { feeds: Seq::empty(), operators: Seq::empty(), associations: Seq::empty() }
}

/// The position of the feed with the given id at or after `from`.
pub open spec fn feed_at_from(feeds: Seq<FeedRecordView>, id: Seq<char>, from: int) -> Option<int>
    decreases feeds.len() - from,
{
    if from < 0 || from >= feeds.len() {
        None
    } else if feeds[from].id == id {
        Some(from)
    } else {
        feed_at_from(feeds, id, from + 1)
    }
}

/// The position of the feed with the given id.
pub open spec fn feed_at(feeds: Seq<FeedRecordView>, id: Seq<char>) -> Option<int> {
    feed_at_from(feeds, id, 0)
}

/// The position of the operator with the given id at or after `from`.
pub open spec fn operator_at_from(
    operators: Seq<OperatorRecordView>,
    id: Seq<char>,
    from: int,
) -> Option<int>
    decreases operators.len() - from,
{
    if from < 0 || from >= operators.len() {
        None
    } else if operators[from].id == id {
        Some(from)
    } else {
        operator_at_from(operators, id, from + 1)
    }
}

/// The position of the operator with the given id.
pub open spec fn operator_at(operators: Seq<OperatorRecordView>, id: Seq<char>) -> Option<int> {
    operator_at_from(operators, id, 0)
}

/// The registry with one feed record written: over the record of the same
/// id where there is one, at the end otherwise.
pub open spec fn with_feed(reg: RegistryView, record: FeedRecordView) -> RegistryView {
    RegistryView {
        feeds: match feed_at(reg.feeds, record.id) {
            Some(at) => reg.feeds.update(at, record),
            None => reg.feeds.push(record),
        },
        ..reg
    }
}

/// The registry with one operator record written: over the record of the
/// same id where there is one, at the end otherwise.
pub open spec fn with_operator(reg: RegistryView, record: OperatorRecordView) -> RegistryView {
    RegistryView {
        operators: match operator_at(reg.operators, record.id) {
            Some(at) => reg.operators.update(at, record),
            None => reg.operators.push(record),
        },
        ..reg
    }
}

/// The registry with one edge added, unless it holds the same edge already.
pub open spec fn with_link(reg: RegistryView, edge: AssociationView) -> RegistryView {
    RegistryView {
        associations: if reg.associations.contains(edge) {
            reg.associations
        } else {
            reg.associations.push(edge)
        },
        ..reg
    }
}

/// The edge that a reference of an operator makes: to the feed it names, or
/// to the enclosing feed where it names none. A reference that names no feed
/// outside any feed makes no edge.
pub open spec fn link_of(
    operator_id: Seq<char>,
    enclosing: Option<Seq<char>>,
    reference: AssociatedFeedView,
) -> Option<AssociationView> {
    match reference.feed_id {
        Some(feed_id) => Some(
            AssociationView { feed_id, operator_id, agency_id: reference.agency_id },
        ),
        None => match enclosing {
            Some(feed_id) => Some(
                AssociationView { feed_id, operator_id, agency_id: reference.agency_id },
            ),
            None => None,
        },
    }
}

/// The registry after one reference of an operator.
pub open spec fn with_reference(
    reg: RegistryView,
    operator_id: Seq<char>,
    enclosing: Option<Seq<char>>,
    reference: AssociatedFeedView,
) -> RegistryView {
    match link_of(operator_id, enclosing, reference) {
        Some(edge) => with_link(reg, edge),
        None => reg,
    }
}

/// The registry after the first `n` references of an operator.
pub open spec fn with_references_upto(
    reg: RegistryView,
    entry: OperatorEntryView,
    enclosing: Option<Seq<char>>,
    n: int,
) -> RegistryView
    decreases n,
{
    if n <= 0 {
        reg
    } else {
        with_reference(
            with_references_upto(reg, entry, enclosing, n - 1),
            entry.id,
            enclosing,
            entry.associated_feeds[n - 1],
        )
    }
}

/// The record that an operator entry carries.
pub open spec fn operator_record_of(entry: OperatorEntryView) -> OperatorRecordView {
    OperatorRecordView { id: entry.id, name: entry.name }
}

/// The record that a feed entry carries.
pub open spec fn feed_record_of(entry: FeedEntryView) -> FeedRecordView {
    FeedRecordView { id: entry.id, spec: entry.spec, name: entry.name, url: entry.url }
}

/// The registry after one operator entry: its record is written, then each
/// of its references makes its edge. An operator that a feed names without
/// any reference belongs to that feed, under no agency.
pub open spec fn with_operator_entry(
    reg: RegistryView,
    entry: OperatorEntryView,
    enclosing: Option<Seq<char>>,
) -> RegistryView {
    let named = with_operator(reg, operator_record_of(entry));
    if entry.associated_feeds.len() == 0 {
        match enclosing {
            Some(feed_id) => with_link(
                named,
                AssociationView { feed_id, operator_id: entry.id, agency_id: None },
            ),
            None => named,
        }
    } else {
        with_references_upto(named, entry, enclosing, entry.associated_feeds.len() as int)
    }
}

/// The registry after the first `n` operator entries of a list.
pub open spec fn with_operator_entries_upto(
    reg: RegistryView,
    entries: Seq<OperatorEntryView>,
    enclosing: Option<Seq<char>>,
    n: int,
) -> RegistryView
    decreases n,
{
    if n <= 0 {
        reg
    } else {
        with_operator_entry(
            with_operator_entries_upto(reg, entries, enclosing, n - 1),
            entries[n - 1],
            enclosing,
        )
    }
}

/// The registry after one feed entry: its record is written, then the
/// operators that it names are taken in, with this feed as the enclosing one.
pub open spec fn with_feed_entry(reg: RegistryView, entry: FeedEntryView) -> RegistryView {
    with_operator_entries_upto(
        with_feed(reg, feed_record_of(entry)),
        entry.operators,
        Some(entry.id),
        entry.operators.len() as int,
    )
}

/// The registry after the first `n` feed entries of a list.
pub open spec fn with_feed_entries_upto(
    reg: RegistryView,
    entries: Seq<FeedEntryView>,
    n: int,
) -> RegistryView
    decreases n,
{
    if n <= 0 {
        reg
    } else {
        with_feed_entry(with_feed_entries_upto(reg, entries, n - 1), entries[n - 1])
    }
}

/// The registry after one document: its feeds in their order, then its
/// operators in theirs.
pub open spec fn absorbed(reg: RegistryView, doc: RegistryDocumentView) -> RegistryView {
    with_operator_entries_upto(
        with_feed_entries_upto(reg, doc.feeds, doc.feeds.len() as int),
        doc.operators,
        None,
        doc.operators.len() as int,
    )
}

/// The registry after the first `n` documents.
pub open spec fn merged_upto(docs: Seq<RegistryDocumentView>, n: int) -> RegistryView
    decreases n,
{
    if n <= 0 {
        empty_registry()
    } else {
        absorbed(merged_upto(docs, n - 1), docs[n - 1])
    }
}

/// The registry that the documents make, taken in their order.
pub open spec fn merged(docs: Seq<RegistryDocumentView>) -> RegistryView {
    merged_upto(docs, docs.len() as int)
}

impl Registry {
    /// A registry that holds nothing.
    pub fn new() -> (reg: Registry)
        ensures
            reg.deep_view() == empty_registry(),
    {
        let reg = Registry { feeds: Vec::new(), operators: Vec::new(), associations: Vec::new() };
        assert(reg.feeds.deep_view() =~= Seq::empty());
        assert(reg.operators.deep_view() =~= Seq::empty());
        assert(reg.associations.deep_view() =~= Seq::empty());
        reg
    }

    /// Finds the feed with the given id.
    pub fn find_feed(&self, id: &str) -> (found: Option<usize>)
        ensures
            match found {
                Some(at) => at < self.feeds.len() && feed_at(self.feeds.deep_view(), id@) == Some(
                    at as int,
                ),
                None => feed_at(self.feeds.deep_view(), id@) is None,
            },
    {
        let mut i: usize = 0;
        while i < self.feeds.len()
            invariant
                i <= self.feeds.len(),
                feed_at(self.feeds.deep_view(), id@) == feed_at_from(
                    self.feeds.deep_view(),
                    id@,
                    i as int,
                ),
            decreases self.feeds.len() - i,
        {
            assert(self.feeds.deep_view()[i as int] == self.feeds@[i as int].deep_view());
            if same_text(self.feeds[i].id.as_str(), id) {
                return Some(i);
            }
            i += 1;
        }
        None
    }

    /// Finds the operator with the given id.
    pub fn find_operator(&self, id: &str) -> (found: Option<usize>)
        ensures
            match found {
                Some(at) => at < self.operators.len() && operator_at(
                    self.operators.deep_view(),
                    id@,
                ) == Some(at as int),
                None => operator_at(self.operators.deep_view(), id@) is None,
            },
    {
        let mut i: usize = 0;
        while i < self.operators.len()
            invariant
                i <= self.operators.len(),
                operator_at(self.operators.deep_view(), id@) == operator_at_from(
                    self.operators.deep_view(),
                    id@,
                    i as int,
                ),
            decreases self.operators.len() - i,
        {
            assert(self.operators.deep_view()[i as int] == self.operators@[i as int].deep_view());
            if same_text(self.operators[i].id.as_str(), id) {
                return Some(i);
            }
            i += 1;
        }
        None
    }

    /// Tests whether the registry holds the edge.
    pub fn has_link(&self, edge: &Association) -> (found: bool)
        ensures
            found == self.associations.deep_view().contains(edge.deep_view()),
    {
        let mut i: usize = 0;
        while i < self.associations.len()
            invariant
                i <= self.associations.len(),
                forall|k: int|
                    0 <= k < i ==> (#[trigger] self.associations.deep_view()[k])
                        != edge.deep_view(),
            decreases self.associations.len() - i,
        {
            let held = &self.associations[i];
            assert(self.associations.deep_view()[i as int] == held.deep_view());
            if same_text(held.feed_id.as_str(), edge.feed_id.as_str()) && same_text(
                held.operator_id.as_str(),
                edge.operator_id.as_str(),
            ) && same_optional_text(&held.agency_id, &edge.agency_id) {
                return true;
            }
            i += 1;
        }
        false
    }

    /// Writes one feed record; a later record replaces an earlier one of the
    /// same id, where the earlier one stood.
    pub fn put_feed(&mut self, record: FeedRecord)
        ensures
            final(self).deep_view() == with_feed(old(self).deep_view(), record.deep_view()),
    {
        let ghost before = self.feeds.deep_view();
        match self.find_feed(record.id.as_str()) {
            Some(at) => {
                self.feeds[at] = record;
                assert(self.feeds.deep_view() =~= before.update(at as int, record.deep_view()));
            },
            None => {
                self.feeds.push(record);
                assert(self.feeds.deep_view() =~= before.push(record.deep_view()));
            },
        }
    }

    /// Writes one operator record; a later record replaces an earlier one of
    /// the same id, where the earlier one stood.
    pub fn put_operator(&mut self, record: OperatorRecord)
        ensures
            final(self).deep_view() == with_operator(old(self).deep_view(), record.deep_view()),
    {
        let ghost before = self.operators.deep_view();
        match self.find_operator(record.id.as_str()) {
            Some(at) => {
                self.operators[at] = record;
                assert(self.operators.deep_view() =~= before.update(
                    at as int,
                    record.deep_view(),
                ));
            },
            None => {
                self.operators.push(record);
                assert(self.operators.deep_view() =~= before.push(record.deep_view()));
            },
        }
    }

    /// Adds one edge, unless the registry holds the same edge already.
    pub fn link(&mut self, edge: Association)
        ensures
            final(self).deep_view() == with_link(old(self).deep_view(), edge.deep_view()),
    {
        let ghost before = self.associations.deep_view();
        if !self.has_link(&edge) {
            self.associations.push(edge);
            assert(self.associations.deep_view() =~= before.push(edge.deep_view()));
        }
    }

    fn absorb_reference(
        &mut self,
        operator_id: &String,
        enclosing: Option<&String>,
        reference: &AssociatedFeed,
    )
        ensures
            final(self).deep_view() == with_reference(
                old(self).deep_view(),
                operator_id@,
                enclosing.deep_view(),
                reference.deep_view(),
            ),
    {
        let feed_id = match &reference.feed_id {
            Some(id) => Some(id.clone()),
            None => match enclosing {
                Some(id) => Some(id.clone()),
                None => None,
            },
        };
        match feed_id {
            Some(feed_id) => {
                self.link(
                    Association {
                        feed_id,
                        operator_id: operator_id.clone(),
                        agency_id: copy_optional_text(&reference.agency_id),
                    },
                );
            },
            None => {},
        }
    }

    /// Takes in one operator entry, found inside the entry of the feed
    /// `enclosing` or, without one, at the top of a document.
    pub fn absorb_operator(&mut self, entry: &OperatorEntry, enclosing: Option<&String>)
        ensures
            final(self).deep_view() == with_operator_entry(
                old(self).deep_view(),
                entry.deep_view(),
                enclosing.deep_view(),
            ),
    {
        self.put_operator(OperatorRecord { id: entry.id.clone(), name: entry.name.clone() });
        let ghost named = self.deep_view();
        if entry.associated_feeds.len() == 0 {
            match enclosing {
                Some(feed_id) => {
                    self.link(
                        Association {
                            feed_id: feed_id.clone(),
                            operator_id: entry.id.clone(),
                            agency_id: None,
                        },
                    );
                },
                None => {},
            }
        } else {
            let mut k: usize = 0;
            while k < entry.associated_feeds.len()
                invariant
                    k <= entry.associated_feeds.len(),
                    self.deep_view() == with_references_upto(
                        named,
                        entry.deep_view(),
                        enclosing.deep_view(),
                        k as int,
                    ),
                decreases entry.associated_feeds.len() - k,
            {
                assert(entry.deep_view().associated_feeds[k as int]
                    == entry.associated_feeds@[k as int].deep_view());
                self.absorb_reference(&entry.id, enclosing, &entry.associated_feeds[k]);
                k += 1;
            }
        }
    }

    fn absorb_operators(&mut self, entries: &Vec<OperatorEntry>, enclosing: Option<&String>)
        ensures
            final(self).deep_view() == with_operator_entries_upto(
                old(self).deep_view(),
                entries.deep_view(),
                enclosing.deep_view(),
                entries.len() as int,
            ),
    {
        let ghost start = self.deep_view();
        let mut k: usize = 0;
        while k < entries.len()
            invariant
                k <= entries.len(),
                self.deep_view() == with_operator_entries_upto(
                    start,
                    entries.deep_view(),
                    enclosing.deep_view(),
                    k as int,
                ),
            decreases entries.len() - k,
        {
            assert(entries.deep_view()[k as int] == entries@[k as int].deep_view());
            self.absorb_operator(&entries[k], enclosing);
            k += 1;
        }
    }

    /// Takes in one feed entry with the operators that it names.
    pub fn absorb_feed(&mut self, entry: &FeedEntry)
        ensures
            final(self).deep_view() == with_feed_entry(old(self).deep_view(), entry.deep_view()),
    {
        self.put_feed(
            FeedRecord {
                id: entry.id.clone(),
                spec: entry.spec,
                name: copy_optional_text(&entry.name),
                url: copy_optional_text(&entry.url),
            },
        );
        self.absorb_operators(&entry.operators, Some(&entry.id));
    }

    /// Takes in one document. Every well-formed document is accepted: a
    /// reference to a feed or an operator that no document has described yet
    /// is kept as an edge all the same.
    pub fn absorb(&mut self, doc: &RegistryDocument)
        ensures
            final(self).deep_view() == absorbed(old(self).deep_view(), doc.deep_view()),
    {
        let ghost start = self.deep_view();
        let mut k: usize = 0;
        while k < doc.feeds.len()
            invariant
                k <= doc.feeds.len(),
                self.deep_view() == with_feed_entries_upto(start, doc.feeds.deep_view(), k as int),
            decreases doc.feeds.len() - k,
        {
            assert(doc.feeds.deep_view()[k as int] == doc.feeds@[k as int].deep_view());
            self.absorb_feed(&doc.feeds[k]);
            k += 1;
        }
        self.absorb_operators(&doc.operators, None);
    }
}

/// Merges the documents, in their order, into one registry.
pub fn merge_documents(docs: &Vec<RegistryDocument>) -> (reg: Registry)
    ensures
        reg.deep_view() == merged(docs.deep_view()),
        well_formed(reg.deep_view()),
        edges(reg.deep_view()) == all_links(docs.deep_view()),
{
    let mut reg = Registry::new();
    let mut k: usize = 0;
    while k < docs.len()
        invariant
            k <= docs.len(),
            reg.deep_view() == merged_upto(docs.deep_view(), k as int),
        decreases docs.len() - k,
    {
        assert(docs.deep_view()[k as int] == docs@[k as int].deep_view());
        reg.absorb(&docs[k]);
        k += 1;
    }
    proof {
        lemma_merged(docs.deep_view());
    }
    reg
}

} // verus!
