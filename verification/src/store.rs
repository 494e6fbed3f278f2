//! The document store: the collections, one file each, and the single
//! environments file, as they stand below the data root.
//!
//! A [`DocumentStore`] is a picture of the data root held in memory. The
//! caller enters what it found on disk, asks the store what an operation
//! yields, and writes back what the operation changed.

use vstd::prelude::*;
use crate::failure::{Failure, FailureView};
use crate::listing::{
    by_recency,
    is_by_recency,
    lemma_listing_is_by_recency,
    lemma_listing_keeps_entries,
    meta_views,
    sort_by_recency,
};
use crate::model::{
    Collection,
    CollectionMeta,
    CollectionMetaView,
    CollectionView,
    EnvironmentState,
    EnvironmentStateView,
};
use crate::names::{
    collection_file_name,
    file_name_of,
    is_document_file,
    lemma_collection_file_is_document,
    lemma_file_names_differ,
    names_a_document,
};

verus! {

/// What a file turned out to hold.
#[derive(Debug, PartialEq, Eq)]
pub enum Stored<T> {
    /// The file parsed to this document.
    Document(T),
    /// The file could be read but not parsed; holds the detail.
    Corrupt(String),
    /// The file could not be read; holds the detail.
    Unreadable(String),
}

/// Mathematical counterpart of [`Stored`].
pub enum StoredView<V> {
    Document(V),
    Corrupt(Seq<char>),
    Unreadable(Seq<char>),
}

impl<T: View> View for Stored<T> {
    type V = StoredView<T::V>;

    open spec fn view(&self) -> StoredView<T::V> {
        match self {
            Stored::Document(document) => StoredView::Document(document@),
            Stored::Corrupt(detail) => StoredView::Corrupt(detail@),
            Stored::Unreadable(detail) => StoredView::Unreadable(detail@),
        }
    }
}

impl<V> StoredView<V> {
    /// Reading the file: the document, or the failure that stands in its way.
    pub open spec fn read(self) -> Result<V, FailureView> {
        match self {
            StoredView::Document(document) => Ok(document),
            StoredView::Corrupt(detail) => Err(FailureView::CorruptDocument(detail)),
            StoredView::Unreadable(detail) => Err(FailureView::IoFailure(detail)),
        }
    }
}

/// A file in the collections directory.
#[derive(Debug, PartialEq, Eq)]
pub struct CollectionFile {
    pub name: String,
    pub content: Stored<Collection>,
}

impl View for CollectionFile {
    type V = (Seq<char>, StoredView<CollectionView>);

    open spec fn view(&self) -> (Seq<char>, StoredView<CollectionView>) {
        (self.name@, self.content@)
    }
}

/// The views of a list of files, in order.
pub open spec fn file_views(files: Seq<CollectionFile>) -> Seq<
    (Seq<char>, StoredView<CollectionView>),
> {
    Seq::new(files.len(), |i: int| files[i]@)
}

/// Mathematical counterpart of [`DocumentStore`]: the files of the collections
/// directory in directory order, and the environments file if there is one.
pub struct DocumentStoreView {
    pub files: Seq<(Seq<char>, StoredView<CollectionView>)>,
    pub environments: Option<StoredView<EnvironmentStateView>>,
}

impl DocumentStoreView {
    /// A data root in which nothing was saved yet.
    pub open spec fn fresh() -> DocumentStoreView {
        DocumentStoreView { files: Seq::empty(), environments: None }
    }

    /// No two files have the same name.
    pub open spec fn wf(self) -> bool {
        forall|i: int, j: int|
            0 <= i < j < self.files.len() ==> (#[trigger] self.files[i]).0 != (
            #[trigger] self.files[j]).0
    }

    /// There is a file with this name.
    pub open spec fn holds(self, name: Seq<char>) -> bool {
        exists|i: int| 0 <= i < self.files.len() && (#[trigger] self.files[i]).0 == name
    }

    /// Where the file with this name stands.
    pub open spec fn place_of(self, name: Seq<char>) -> int {
        choose|i: int| 0 <= i < self.files.len() && (#[trigger] self.files[i]).0 == name
    }

    /// What the file with this name holds, if there is such a file.
    pub open spec fn content_of(self, name: Seq<char>) -> Option<StoredView<CollectionView>> {
        if self.holds(name) {
            Some(self.files[self.place_of(name)].1)
        } else {
            None
        }
    }

    /// The store after a file was written: in the place of the file with that
    /// name, or as a new file behind the others.
    pub open spec fn with_file(
        self,
        name: Seq<char>,
        content: StoredView<CollectionView>,
    ) -> DocumentStoreView {
        DocumentStoreView {
            files: if self.holds(name) {
                self.files.update(self.place_of(name), (name, content))
            } else {
                self.files.push((name, content))
            },
            environments: self.environments,
        }
    }

    /// The store after the file with this name was removed, if there was one.
    pub open spec fn without_file(self, name: Seq<char>) -> DocumentStoreView {
        DocumentStoreView {
            files: if self.holds(name) {
                self.files.remove(self.place_of(name))
            } else {
                self.files
            },
            environments: self.environments,
        }
    }

    /// The store after the environments file was written.
    pub open spec fn with_environments(
        self,
        content: StoredView<EnvironmentStateView>,
    ) -> DocumentStoreView {
        DocumentStoreView { files: self.files, environments: Some(content) }
    }

    /// Fetching a collection: what its file holds, or that there is no such file.
    pub open spec fn get(self, id: Seq<char>) -> Result<CollectionView, FailureView> {
        match self.content_of(file_name_of(id)) {
            Some(content) => content.read(),
            None => Err(FailureView::NotFound(id)),
        }
    }

    /// The store after a collection was saved: its file holds it whole.
    pub open spec fn saved(self, collection: CollectionView) -> DocumentStoreView {
        self.with_file(file_name_of(collection.id), StoredView::Document(collection))
    }

    /// The store after a collection was deleted.
    pub open spec fn deleted(self, id: Seq<char>) -> DocumentStoreView {
        self.without_file(file_name_of(id))
    }

    /// The store after an import: the document is saved under its own
    /// identifier; a source that is no document changes nothing.
    pub open spec fn imported(self, source: StoredView<CollectionView>) -> DocumentStoreView {
        match source {
            StoredView::Document(collection) => self.saved(collection),
            _ => self,
        }
    }

    /// Loading the environments: what the file holds, and the empty state
    /// where there is no file.
    pub open spec fn environments_loaded(self) -> Result<EnvironmentStateView, FailureView> {
        match self.environments {
            Some(content) => content.read(),
            None => Ok(EnvironmentStateView::empty()),
        }
    }

    /// The store after an import of environments: the state takes the place of
    /// whatever was there; a source that is no document changes nothing.
    pub open spec fn environments_imported(
        self,
        source: StoredView<EnvironmentStateView>,
    ) -> DocumentStoreView {
        match source {
            StoredView::Document(state) => self.with_environments(StoredView::Document(state)),
            _ => self,
        }
    }

    /// The listing: the entries of all documents that parsed, most recently
    /// updated first.
    pub open spec fn listing(self) -> Seq<CollectionMetaView> {
        by_recency(listed(self.files))
    }
}

/// The listing entries of the files, in directory order: one for each file
/// that is named as a document and parsed. All other files are passed over.
pub open spec fn listed(files: Seq<(Seq<char>, StoredView<CollectionView>)>) -> Seq<
    CollectionMetaView,
>
    decreases files.len(),
{
    if files.len() == 0 {
        Seq::empty()
    } else {
        let earlier = listed(files.drop_last());
        match files.last().1 {
            StoredView::Document(collection) => if names_a_document(files.last().0) {
                earlier.push(collection.meta())
            } else {
                earlier
            },
            _ => earlier,
        }
    }
}

/// The data root as the store sees it.
#[derive(Debug, PartialEq, Eq)]
pub struct DocumentStore {
    files: Vec<CollectionFile>,
    environments: Option<Stored<EnvironmentState>>,
}

impl View for DocumentStore {
    type V = DocumentStoreView;

    closed spec fn view(&self) -> DocumentStoreView {
        DocumentStoreView {
            files: file_views(self.files@),
            environments: match self.environments {
                Some(content) => Some(content@),
                None => None,
            },
        }
    }
}

/// The outcome of reading a stored document, by reference.
pub open spec fn read_matches<T: View>(
    outcome: Result<&T, Failure>,
    expected: Result<T::V, FailureView>,
) -> bool {
    match expected {
        Ok(document) => outcome is Ok && outcome->Ok_0@ == document,
        Err(failure) => outcome is Err && outcome->Err_0@ == failure,
    }
}

/// Reads what a file holds: the document, or the failure that stands in its way.
pub fn read_stored<T: View>(content: &Stored<T>) -> (outcome: Result<&T, Failure>)
    ensures
        read_matches(outcome, content@.read()),
{
    match content {
        Stored::Document(document) => Ok(document),
        Stored::Corrupt(detail) => Err(Failure::CorruptDocument(detail.clone())),
        Stored::Unreadable(detail) => Err(Failure::IoFailure(detail.clone())),
    }
}

impl DocumentStore {
    /// No two files have the same name.
    pub open spec fn wf(&self) -> bool {
        self@.wf()
    }

    /// A store for a data root in which nothing was saved yet.
    pub fn new() -> (store: DocumentStore)
        ensures
            store.wf(),
            store@ == DocumentStoreView::fresh(),
    {
        let store = DocumentStore { files: Vec::new(), environments: None };
        assert(store@.files =~= Seq::empty());
        store
    }

    /// Finds the file with the given name.
    fn find(&self, name: &String) -> (place: Option<usize>)
        requires
            self.wf(),
        ensures
            match place {
                Some(i) => self@.holds(name@) && i == self@.place_of(name@) && i
                    < self.files@.len(),
                None => !self@.holds(name@),
            },
    {
        let mut i: usize = 0;
        while i < self.files.len()
            invariant
                i <= self.files@.len(),
                self.wf(),
                forall|k: int| 0 <= k < i ==> (#[trigger] self@.files[k]).0 != name@,
            decreases self.files@.len() - i,
        {
            if self.files[i].name == *name {
                proof {
                    assert(self@.files[i as int].0 == name@);
                    let chosen = self@.place_of(name@);
                    assert(self@.files[chosen].0 == name@);
                    if chosen < i {
                        assert(self@.files[chosen].0 != self@.files[i as int].0);
                    }
                    if chosen > i {
                        assert(self@.files[i as int].0 != self@.files[chosen].0);
                    }
                }
                return Some(i);
            }
            i = i + 1;
        }
        None
    }

    /// Enters a file of the collections directory under its file name: in
    /// the place of the file with that name, or as a new file.
    pub fn record_file(&mut self, name: String, content: Stored<Collection>)
        requires
            old(self).wf(),
        ensures
            final(self).wf(),
            final(self)@ == old(self)@.with_file(name@, content@),
    {
        let ghost before = self@;
        match self.find(&name) {
            Some(i) => {
                let file = CollectionFile { name, content };
                self.files.set(i, file);
                proof {
                    assert(self@.files =~= before.files.update(i as int, file@));
                    assert forall|a: int, b: int| 0 <= a < b < self@.files.len() implies (
                    #[trigger] self@.files[a]).0 != (#[trigger] self@.files[b]).0 by {
                        assert(before.files[a].0 != before.files[b].0);
                    }
                }
            },
            None => {
                let file = CollectionFile { name, content };
                self.files.push(file);
                proof {
                    assert(self@.files =~= before.files.push(file@));
                    assert forall|a: int, b: int| 0 <= a < b < self@.files.len() implies (
                    #[trigger] self@.files[a]).0 != (#[trigger] self@.files[b]).0 by {
                        if b < before.files.len() {
                            assert(before.files[a].0 != before.files[b].0);
                        } else {
                            assert(before.files[a].0 != name@);
                        }
                    }
                }
            },
        }
    }

    /// Enters the environments file as found.
    pub fn record_environments(&mut self, content: Stored<EnvironmentState>)
        requires
            old(self).wf(),
        ensures
            final(self).wf(),
            final(self)@ == old(self)@.with_environments(content@),
    {
        self.environments = Some(content);
    }

    /// Lists the collections, most recently updated first. A file that is not
    /// named as a document, or that does not parse, is passed over in silence.
    pub fn list(&self) -> (metas: Vec<CollectionMeta>)
        ensures
            meta_views(metas@) == self@.listing(),
    {
        let ghost files = self@.files;
        let mut found: Vec<CollectionMeta> = Vec::new();
        let mut i: usize = 0;
        while i < self.files.len()
            invariant
                i <= self.files@.len(),
                files == self@.files,
                files.len() == self.files@.len(),
                meta_views(found@) == listed(files.take(i as int)),
            decreases self.files@.len() - i,
        {
            proof {
                assert(files.take(i + 1).drop_last() =~= files.take(i as int));
                assert(files.take(i + 1).last() == self.files@[i as int]@);
            }
            let file = &self.files[i];
            match &file.content {
                Stored::Document(collection) => {
                    if is_document_file(file.name.as_str()) {
                        let meta = collection.meta();
                        proof {
                            assert(meta_views(found@.push(meta)) =~= meta_views(found@).push(
                                meta@,
                            ));
                        }
                        found.push(meta);
                    }
                },
                _ => {},
            }
            i = i + 1;
        }
        assert(files.take(self.files@.len() as int) =~= files);
        sort_by_recency(&found)
    }

    /// Fetches the collection with the given identifier. A missing file is
    /// reported as such; a file that cannot be read or parsed is reported too.
    pub fn get(&self, id: &str) -> (outcome: Result<&Collection, Failure>)
        requires
            self.wf(),
        ensures
            read_matches(outcome, self@.get(id@)),
    {
        let name = collection_file_name(id);
        match self.find(&name) {
            Some(i) => {
                assert(self@.files[i as int] == self.files@[i as int]@);
                read_stored(&self.files[i].content)
            },
            None => Err(Failure::NotFound(String::from_str(id))),
        }
    }

    /// Saves a collection under its identifier, in place of whatever its file
    /// held. Returns the name of the file that now holds it.
    pub fn save(&mut self, collection: Collection) -> (file_name: String)
        requires
            old(self).wf(),
        ensures
            final(self).wf(),
            final(self)@ == old(self)@.saved(collection@),
            file_name@ == file_name_of(collection@.id),
    {
        let name = collection_file_name(collection.id.as_str());
        let file_name = name.clone();
        self.record_file(name, Stored::Document(collection));
        file_name
    }

    /// Deletes the collection with the given identifier. Returns the name of
    /// the file that was removed, or nothing where there was no such file.
    pub fn delete(&mut self, id: &str) -> (removed: Option<String>)
        requires
            old(self).wf(),
        ensures
            final(self).wf(),
            final(self)@ == old(self)@.deleted(id@),
            match removed {
                Some(file_name) => old(self)@.holds(file_name_of(id@)) && file_name@
                    == file_name_of(id@),
                None => !old(self)@.holds(file_name_of(id@)),
            },
    {
        let ghost before = self@;
        let name = collection_file_name(id);
        match self.find(&name) {
            Some(i) => {
                self.files.remove(i);
                proof {
                    assert(self@.files =~= before.files.remove(i as int));
                    assert forall|a: int, b: int| 0 <= a < b < self@.files.len() implies (
                    #[trigger] self@.files[a]).0 != (#[trigger] self@.files[b]).0 by {
                        let a0 = if a < i { a } else { a + 1 };
                        let b0 = if b < i { b } else { b + 1 };
                        assert(before.files[a0].0 != before.files[b0].0);
                    }
                }
                Some(name)
            },
            None => None,
        }
    }

    /// Takes in a collection read from elsewhere, saves it under its own
    /// identifier, and hands it back. A source that could not be read or
    /// parsed is refused and changes nothing.
    pub fn import(&mut self, source: Stored<Collection>) -> (outcome: Result<Collection, Failure>)
        requires
            old(self).wf(),
        ensures
            final(self).wf(),
            final(self)@ == old(self)@.imported(source@),
            match source@.read() {
                Ok(collection) => outcome is Ok && outcome->Ok_0@ == collection,
                Err(failure) => outcome is Err && outcome->Err_0@ == failure,
            },
    {
        match source {
            Stored::Document(collection) => {
                let imported = collection.clone();
                self.save(collection);
                Ok(imported)
            },
            Stored::Corrupt(detail) => Err(Failure::CorruptDocument(detail)),
            Stored::Unreadable(detail) => Err(Failure::IoFailure(detail)),
        }
    }

    /// Loads the environments. Where nothing was saved yet this is the empty
    /// state, not a failure.
    pub fn load_environments(&self) -> (outcome: Result<EnvironmentState, Failure>)
        ensures
            match self@.environments_loaded() {
                Ok(state) => outcome is Ok && outcome->Ok_0@ == state,
                Err(failure) => outcome is Err && outcome->Err_0@ == failure,
            },
    {
        match &self.environments {
            Some(content) => match read_stored(content) {
                Ok(state) => Ok(state.clone()),
                Err(failure) => Err(failure),
            },
            None => Ok(EnvironmentState::empty()),
        }
    }

    /// Saves the environments, in place of whatever the file held.
    pub fn save_environments(&mut self, state: EnvironmentState)
        requires
            old(self).wf(),
        ensures
            final(self).wf(),
            final(self)@ == old(self)@.with_environments(StoredView::Document(state@)),
    {
        self.environments = Some(Stored::Document(state));
    }

    /// Takes in environments read from elsewhere and hands them back; they
    /// replace the saved ones as a whole. A source that could not be read or
    /// parsed is refused and changes nothing.
    pub fn import_environments(&mut self, source: Stored<EnvironmentState>) -> (outcome: Result<
        EnvironmentState,
        Failure,
    >)
        requires
            old(self).wf(),
        ensures
            final(self).wf(),
            final(self)@ == old(self)@.environments_imported(source@),
            match source@.read() {
                Ok(state) => outcome is Ok && outcome->Ok_0@ == state,
                Err(failure) => outcome is Err && outcome->Err_0@ == failure,
            },
    {
        match source {
            Stored::Document(state) => {
                let imported = state.clone();
                self.save_environments(state);
                Ok(imported)
            },
            Stored::Corrupt(detail) => Err(Failure::CorruptDocument(detail)),
            Stored::Unreadable(detail) => Err(Failure::IoFailure(detail)),
        }
    }
}

/// In a store without repeated names, a file's name leads to its place.
pub proof fn lemma_place_of(store: DocumentStoreView, name: Seq<char>, at: int)
    requires
        store.wf(),
        0 <= at < store.files.len(),
        store.files[at].0 == name,
    ensures
        store.holds(name),
        store.place_of(name) == at,
        store.content_of(name) == Some(store.files[at].1),
{
    let chosen = store.place_of(name);
    assert(store.files[chosen].0 == name);
    if chosen < at {
        assert(store.files[chosen].0 != store.files[at].0);
    }
    if chosen > at {
        assert(store.files[at].0 != store.files[chosen].0);
    }
}

/// After a file was written it holds what was written, and every other file
/// holds what it held before; no name comes to stand twice.
pub proof fn lemma_with_file(
    store: DocumentStoreView,
    name: Seq<char>,
    content: StoredView<CollectionView>,
)
    requires
        store.wf(),
    ensures
        store.with_file(name, content).wf(),
        store.with_file(name, content).content_of(name) == Some(content),
        forall|other: Seq<char>|
            other != name ==> #[trigger] store.with_file(name, content).content_of(other)
                == store.content_of(other),
        store.holds(name) ==> store.with_file(name, content).files.len() == store.files.len(),
        !store.holds(name) ==> store.with_file(name, content).files.len() == store.files.len() + 1,
{
    let after = store.with_file(name, content);
    let at = if store.holds(name) {
        store.place_of(name)
    } else {
        store.files.len() as int
    };
    assert(after.files[at] == (name, content));
    assert forall|i: int| 0 <= i < after.files.len() && i != at implies #[trigger] after.files[i]
        == store.files[i] && store.files[i].0 != name by {
        if store.holds(name) {
            if i < at {
                assert(store.files[i].0 != store.files[at].0);
            } else {
                assert(store.files[at].0 != store.files[i].0);
            }
        }
    }
    assert forall|i: int, j: int| 0 <= i < j < after.files.len() implies (
    #[trigger] after.files[i]).0 != (#[trigger] after.files[j]).0 by {
        if i != at && j != at {
            assert(after.files[i] == store.files[i]);
            assert(after.files[j] == store.files[j]);
            assert(store.files[i].0 != store.files[j].0);
        } else if i == at {
            assert(after.files[j] == store.files[j]);
        } else {
            assert(after.files[i] == store.files[i]);
        }
    }
    lemma_place_of(after, name, at);
    assert forall|other: Seq<char>| other != name implies #[trigger] after.content_of(other)
        == store.content_of(other) by {
        if store.holds(other) {
            let i = store.place_of(other);
            assert(store.files[i].0 == other);
            assert(after.files[i] == store.files[i]);
            lemma_place_of(after, other, i);
        } else if after.holds(other) {
            let i = after.place_of(other);
            assert(after.files[i].0 == other);
            assert(after.files[i] == store.files[i]);
            assert(store.files[i].0 == other);
        }
    }
}

/// After a file was removed there is no file with its name, and every other
/// file holds what it held before.
pub proof fn lemma_without_file(store: DocumentStoreView, name: Seq<char>)
    requires
        store.wf(),
    ensures
        store.without_file(name).wf(),
        !store.without_file(name).holds(name),
        forall|other: Seq<char>|
            other != name ==> #[trigger] store.without_file(name).content_of(other)
                == store.content_of(other),
{
    let after = store.without_file(name);
    if store.holds(name) {
        let at = store.place_of(name);
        assert(store.files[at].0 == name);
        assert forall|i: int| 0 <= i < after.files.len() implies #[trigger] after.files[i]
            == store.files[if i < at { i } else { i + 1 }] && after.files[i].0 != name by {
            if i < at {
                assert(store.files[i].0 != store.files[at].0);
            } else {
                assert(store.files[at].0 != store.files[i + 1].0);
            }
        }
        assert forall|i: int, j: int| 0 <= i < j < after.files.len() implies (
        #[trigger] after.files[i]).0 != (#[trigger] after.files[j]).0 by {
            let i0 = if i < at { i } else { i + 1 };
            let j0 = if j < at { j } else { j + 1 };
            assert(after.files[i] == store.files[i0]);
            assert(after.files[j] == store.files[j0]);
            assert(store.files[i0].0 != store.files[j0].0);
        }
        if after.holds(name) {
            let i = after.place_of(name);
            assert(after.files[i].0 == name);
        }
        assert forall|other: Seq<char>| other != name implies #[trigger] after.content_of(other)
            == store.content_of(other) by {
            if store.holds(other) {
                let i = store.place_of(other);
                assert(store.files[i].0 == other);
                let moved = if i < at { i } else { i - 1 };
                assert(after.files[moved] == store.files[i]);
                lemma_place_of(after, other, moved);
            } else if after.holds(other) {
                let i = after.place_of(other);
                assert(after.files[i].0 == other);
                let i0 = if i < at { i } else { i + 1 };
                assert(after.files[i] == store.files[i0]);
                assert(store.files[i0].0 == other);
            }
        }
    }
}

/// Saving and then fetching gives back the collection that was saved, whole
/// and unchanged, whatever the store held before.
pub proof fn lemma_saved_collection_is_fetched(store: DocumentStoreView, collection: CollectionView)
    requires
        store.wf(),
    ensures
        store.saved(collection).wf(),
        store.saved(collection).get(collection.id) == Ok::<CollectionView, FailureView>(
            collection,
        ),
{
    lemma_with_file(store, file_name_of(collection.id), StoredView::Document(collection));
}

/// Deleting a collection a second time changes nothing and is no failure:
/// the store after two deletions is the store after one, and the collection
/// is then reported as not found.
pub proof fn lemma_delete_twice_is_delete_once(store: DocumentStoreView, id: Seq<char>)
    requires
        store.wf(),
    ensures
        store.deleted(id).wf(),
        store.deleted(id).deleted(id) == store.deleted(id),
        store.deleted(id).get(id) == Err::<CollectionView, FailureView>(FailureView::NotFound(id)),
{
    lemma_without_file(store, file_name_of(id));
}

/// An import under an identifier that is already in use replaces that
/// collection as a whole: fetching gives the imported document and nothing of
/// the old one, no second file appears, and every other collection is
/// fetched as before.
pub proof fn lemma_import_replaces_collection(store: DocumentStoreView, incoming: CollectionView)
    requires
        store.wf(),
    ensures
        store.imported(StoredView::Document(incoming)).wf(),
        store.imported(StoredView::Document(incoming)).get(incoming.id) == Ok::<
            CollectionView,
            FailureView,
        >(incoming),
        store.holds(file_name_of(incoming.id)) ==> store.imported(
            StoredView::Document(incoming),
        ).files.len() == store.files.len(),
        forall|other: Seq<char>|
            other != incoming.id ==> #[trigger] store.imported(
                StoredView::Document(incoming),
            ).get(other) == store.get(other),
{
    let name = file_name_of(incoming.id);
    lemma_with_file(store, name, StoredView::Document(incoming));
    let after = store.imported(StoredView::Document(incoming));
    assert forall|other: Seq<char>| other != incoming.id implies #[trigger] after.get(other)
        == store.get(other) by {
        lemma_file_names_differ(other, incoming.id);
        assert(after.content_of(file_name_of(other)) == store.content_of(file_name_of(other)));
    }
}

/// Where nothing was saved yet, loading the environments gives the empty
/// state, and the listing is empty.
pub proof fn lemma_fresh_store(store: DocumentStoreView)
    requires
        store == DocumentStoreView::fresh(),
    ensures
        store.wf(),
        store.environments_loaded() == Ok::<EnvironmentStateView, FailureView>(
            EnvironmentStateView::empty(),
        ),
        store.listing() == Seq::<CollectionMetaView>::empty(),
{
    assert(listed(store.files) =~= Seq::empty());
    assert(by_recency(listed(store.files)) =~= Seq::empty());
}

/// Saving the environments and then loading them gives back what was saved.
pub proof fn lemma_saved_environments_are_loaded(
    store: DocumentStoreView,
    state: EnvironmentStateView,
)
    ensures
        store.with_environments(StoredView::Document(state)).environments_loaded() == Ok::<
            EnvironmentStateView,
            FailureView,
        >(state),
{
}

/// Each file that is named as a document and parsed has its entry among the
/// listed ones.
pub proof fn lemma_listed_holds(files: Seq<(Seq<char>, StoredView<CollectionView>)>, at: int)
    requires
        0 <= at < files.len(),
        names_a_document(files[at].0),
        files[at].1 is Document,
    ensures
        listed(files).contains(files[at].1->Document_0.meta()),
    decreases files.len(),
{
    let front = files.drop_last();
    let earlier = listed(front);
    if at == files.len() - 1 {
        let entry = files[at].1->Document_0.meta();
        assert(listed(files) == earlier.push(entry));
        assert(listed(files)[earlier.len() as int] == entry);
    } else {
        lemma_listed_holds(front, at);
        let entry = front[at].1->Document_0.meta();
        let i = choose|i: int| 0 <= i < earlier.len() && earlier[i] == entry;
        assert(listed(files)[i] == entry);
    }
}

/// The listing is ordered, most recently updated first, and holds the entries
/// of the listed files, each as often as there is a file for it.
pub proof fn lemma_listing_is_ordered_and_complete(store: DocumentStoreView)
    ensures
        is_by_recency(store.listing()),
        store.listing().len() == listed(store.files).len(),
        store.listing().to_multiset() == listed(store.files).to_multiset(),
{
    lemma_listing_is_by_recency(listed(store.files));
    lemma_listing_keeps_entries(listed(store.files));
}

/// A collection that was saved under an identifier that is not empty shows in
/// the listing.
pub proof fn lemma_saved_collection_is_listed(store: DocumentStoreView, collection: CollectionView)
    requires
        store.wf(),
        collection.id.len() > 0,
    ensures
        store.saved(collection).listing().contains(collection.meta()),
{
    broadcast use vstd::seq_lib::group_to_multiset_ensures;

    let name = file_name_of(collection.id);
    let after = store.saved(collection);
    lemma_with_file(store, name, StoredView::Document(collection));
    lemma_collection_file_is_document(collection.id);
    assert(after.holds(name));
    let at = after.place_of(name);
    assert(after.files[at].0 == name);
    assert(after.files[at].1 == StoredView::Document(collection));
    lemma_listed_holds(after.files, at);
    lemma_listing_keeps_entries(listed(after.files));
    assert(listed(after.files).to_multiset().count(collection.meta()) > 0);
}

} // verus!
