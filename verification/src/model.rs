//! The documents that the store keeps: collections of saved requests, and
//! sets of environment variables. Each type comes with its mathematical view,
//! in which texts are character sequences and lists are sequences.

use vstd::prelude::*;

verus! {

/// The view of an optional text.
pub open spec fn text_view(text: Option<String>) -> Option<Seq<char>> {
    match text {
        Some(t) => Some(t@),
        None => None,
    }
}

/// Copies an optional text.
pub fn copy_text(text: &Option<String>) -> (copy: Option<String>)
    ensures
        text_view(copy) == text_view(*text),
{
    match text {
        Some(t) => Some(t.clone()),
        None => None,
    }
}

/// A header of a saved request. A disabled header stays in the document but
/// is not meant to be sent.
#[derive(Debug, PartialEq, Eq)]
pub struct Header {
    pub key: String,
    pub value: String,
    pub enabled: bool,
}

pub struct HeaderView {
    pub key: Seq<char>,
    pub value: Seq<char>,
    pub enabled: bool,
}

impl View for Header {
    type V = HeaderView;

    open spec fn view(&self) -> HeaderView {
        HeaderView { key: self.key@, value: self.value@, enabled: self.enabled }
    }
}

impl Clone for Header {
    fn clone(&self) -> (copy: Self)
        ensures
            copy@ == self@,
    {
        Header { key: self.key.clone(), value: self.value.clone(), enabled: self.enabled }
    }
}

/// A saved request: where it goes, how, and with what.
#[derive(Debug, PartialEq, Eq)]
pub struct RequestPayload {
    pub url: String,
    pub method: String,
    pub headers: Vec<Header>,
    pub body: Option<String>,
}

pub struct RequestPayloadView {
    pub url: Seq<char>,
    pub method: Seq<char>,
    pub headers: Seq<HeaderView>,
    pub body: Option<Seq<char>>,
}

impl View for RequestPayload {
    type V = RequestPayloadView;

    open spec fn view(&self) -> RequestPayloadView {
        RequestPayloadView {
            url: self.url@,
            method: self.method@,
            headers: Seq::new(self.headers@.len(), |i: int| self.headers@[i]@),
            body: text_view(self.body),
        }
    }
}

impl Clone for RequestPayload {
    fn clone(&self) -> (copy: Self)
        ensures
            copy@ == self@,
    {
        let mut headers: Vec<Header> = Vec::new();
        let mut i: usize = 0;
        while i < self.headers.len()
            invariant
                i <= self.headers@.len(),
                headers@.len() == i,
                forall|k: int| 0 <= k < i ==> (#[trigger] headers@[k])@ == self.headers@[k]@,
            decreases self.headers@.len() - i,
        {
            headers.push(self.headers[i].clone());
            i = i + 1;
        }
        let copy = RequestPayload {
            url: self.url.clone(),
            method: self.method.clone(),
            headers,
            body: copy_text(&self.body),
        };
        assert(copy@.headers =~= self@.headers);
        copy
    }
}

/// A node of a collection's tree: a folder of further nodes, or a request.
#[derive(Debug, PartialEq, Eq)]
pub enum CollectionItem {
    Folder { id: String, name: String, items: Vec<CollectionItem>, expanded: bool },
    Request { id: String, name: String, request: RequestPayload, created_at: u64, updated_at: u64 },
}

pub enum CollectionItemView {
    Folder { id: Seq<char>, name: Seq<char>, items: Seq<CollectionItemView>, expanded: bool },
    Request {
        id: Seq<char>,
        name: Seq<char>,
        request: RequestPayloadView,
        created_at: u64,
        updated_at: u64,
    },
}

/// The view of one node, with the views of all the nodes below it.
pub open spec fn item_view(item: CollectionItem) -> CollectionItemView
    decreases item,
{
    match item {
        CollectionItem::Folder { id, name, items, expanded } => CollectionItemView::Folder {
            id: id@,
            name: name@,
            items: Seq::new(
                items@.len(),
                |i: int|
                    if 0 <= i < items@.len() {
                        item_view(items@[i])
                    } else {
                        arbitrary()
                    },
            ),
            expanded,
        },
        CollectionItem::Request {
            id,
            name,
            request,
            created_at,
            updated_at,
        } => CollectionItemView::Request {
            id: id@,
            name: name@,
            request: request@,
            created_at,
            updated_at,
        },
    }
}

impl View for CollectionItem {
    type V = CollectionItemView;

    open spec fn view(&self) -> CollectionItemView {
        item_view(*self)
    }
}

/// The views of a list of nodes, in order.
pub open spec fn item_views(items: Seq<CollectionItem>) -> Seq<CollectionItemView> {
    Seq::new(items.len(), |i: int| items[i]@)
}

/// Copies a list of nodes, each with everything below it.
pub fn copy_items(items: &Vec<CollectionItem>) -> (copy: Vec<CollectionItem>)
    ensures
        item_views(copy@) == item_views(items@),
    decreases items,
{
    let mut copy: Vec<CollectionItem> = Vec::new();
    let mut i: usize = 0;
    while i < items.len()
        invariant
            i <= items@.len(),
            copy@.len() == i,
            forall|k: int| 0 <= k < i ==> (#[trigger] copy@[k])@ == items@[k]@,
        decreases items@.len() - i,
    {
        copy.push(items[i].clone());
        i = i + 1;
    }
    assert(item_views(copy@) =~= item_views(items@));
    copy
}

impl Clone for CollectionItem {
    fn clone(&self) -> (copy: Self)
        ensures
            copy@ == self@,
        decreases self,
    {
        match self {
            CollectionItem::Folder { id, name, items, expanded } => {
                let copy = CollectionItem::Folder {
                    id: id.clone(),
                    name: name.clone(),
                    items: copy_items(items),
                    expanded: *expanded,
                };
                proof {
                    let ghost copied = copy->Folder_items;
                    assert(item_views(copied@) == item_views(items@));
                    assert forall|k: int| 0 <= k < items@.len() implies item_view(copied@[k])
                        == item_view(items@[k]) by {
                        assert(item_views(copied@)[k] == item_views(items@)[k]);
                    }
                    assert(copy@->Folder_items =~= self@->Folder_items);
                }
                copy
            },
            CollectionItem::Request { id, name, request, created_at, updated_at } => {
                CollectionItem::Request {
                    id: id.clone(),
                    name: name.clone(),
                    request: request.clone(),
                    created_at: *created_at,
                    updated_at: *updated_at,
                }
            },
        }
    }
}

/// A named tree of folders and saved requests.
#[derive(Debug, PartialEq, Eq)]
pub struct Collection {
    pub id: String,
    pub name: String,
    pub description: Option<String>,
    pub created_at: u64,
    pub updated_at: u64,
    pub items: Vec<CollectionItem>,
}

pub struct CollectionView {
    pub id: Seq<char>,
    pub name: Seq<char>,
    pub description: Option<Seq<char>>,
    pub created_at: u64,
    pub updated_at: u64,
    pub items: Seq<CollectionItemView>,
}

impl View for Collection {
    type V = CollectionView;

    open spec fn view(&self) -> CollectionView {
        CollectionView {
            id: self.id@,
            name: self.name@,
            description: text_view(self.description),
            created_at: self.created_at,
            updated_at: self.updated_at,
            items: item_views(self.items@),
        }
    }
}

impl Clone for Collection {
    fn clone(&self) -> (copy: Self)
        ensures
            copy@ == self@,
    {
        Collection {
            id: self.id.clone(),
            name: self.name.clone(),
            description: copy_text(&self.description),
            created_at: self.created_at,
            updated_at: self.updated_at,
            items: copy_items(&self.items),
        }
    }
}

/// What a listing shows of a collection.
#[derive(Debug, PartialEq, Eq)]
pub struct CollectionMeta {
    pub id: String,
    pub name: String,
    pub description: Option<String>,
    pub updated_at: u64,
}

pub struct CollectionMetaView {
    pub id: Seq<char>,
    pub name: Seq<char>,
    pub description: Option<Seq<char>>,
    pub updated_at: u64,
}

impl View for CollectionMeta {
    type V = CollectionMetaView;

    open spec fn view(&self) -> CollectionMetaView {
        CollectionMetaView {
            id: self.id@,
            name: self.name@,
            description: text_view(self.description),
            updated_at: self.updated_at,
        }
    }
}

impl Clone for CollectionMeta {
    fn clone(&self) -> (copy: Self)
        ensures
            copy@ == self@,
    {
        CollectionMeta {
            id: self.id.clone(),
            name: self.name.clone(),
            description: copy_text(&self.description),
            updated_at: self.updated_at,
        }
    }
}

impl CollectionView {
    /// The listing entry of the collection.
    pub open spec fn meta(self) -> CollectionMetaView {
        CollectionMetaView {
            id: self.id,
            name: self.name,
            description: self.description,
            updated_at: self.updated_at,
        }
    }
}

impl Collection {
    /// Projects the collection to its listing entry.
    pub fn meta(&self) -> (meta: CollectionMeta)
        ensures
            meta@ == self@.meta(),
    {
        CollectionMeta {
            id: self.id.clone(),
            name: self.name.clone(),
            description: copy_text(&self.description),
            updated_at: self.updated_at,
        }
    }
}

/// One variable of an environment.
#[derive(Debug, PartialEq, Eq)]
pub struct EnvironmentVariable {
    pub key: String,
    pub value: String,
    pub enabled: bool,
}

pub struct EnvironmentVariableView {
    pub key: Seq<char>,
    pub value: Seq<char>,
    pub enabled: bool,
}

impl View for EnvironmentVariable {
    type V = EnvironmentVariableView;

    open spec fn view(&self) -> EnvironmentVariableView {
        EnvironmentVariableView { key: self.key@, value: self.value@, enabled: self.enabled }
    }
}

impl Clone for EnvironmentVariable {
    fn clone(&self) -> (copy: Self)
        ensures
            copy@ == self@,
    {
        EnvironmentVariable {
            key: self.key.clone(),
            value: self.value.clone(),
            enabled: self.enabled,
        }
    }
}

/// A named set of variables.
#[derive(Debug, PartialEq, Eq)]
pub struct Environment {
    pub id: String,
    pub name: String,
    pub variables: Vec<EnvironmentVariable>,
    pub created_at: u64,
    pub updated_at: u64,
}

pub struct EnvironmentView {
    pub id: Seq<char>,
    pub name: Seq<char>,
    pub variables: Seq<EnvironmentVariableView>,
    pub created_at: u64,
    pub updated_at: u64,
}

impl View for Environment {
    type V = EnvironmentView;

    open spec fn view(&self) -> EnvironmentView {
        EnvironmentView {
            id: self.id@,
            name: self.name@,
            variables: Seq::new(self.variables@.len(), |i: int| self.variables@[i]@),
            created_at: self.created_at,
            updated_at: self.updated_at,
        }
    }
}

impl Clone for Environment {
    fn clone(&self) -> (copy: Self)
        ensures
            copy@ == self@,
    {
        let mut variables: Vec<EnvironmentVariable> = Vec::new();
        let mut i: usize = 0;
        while i < self.variables.len()
            invariant
                i <= self.variables@.len(),
                variables@.len() == i,
                forall|k: int| 0 <= k < i ==> (#[trigger] variables@[k])@ == self.variables@[k]@,
            decreases self.variables@.len() - i,
        {
            variables.push(self.variables[i].clone());
            i = i + 1;
        }
        let copy = Environment {
            id: self.id.clone(),
            name: self.name.clone(),
            variables,
            created_at: self.created_at,
            updated_at: self.updated_at,
        };
        assert(copy@.variables =~= self@.variables);
        copy
    }
}

/// All environments, and which of them is active.
#[derive(Debug, PartialEq, Eq)]
pub struct EnvironmentState {
    pub environments: Vec<Environment>,
    pub active_environment_id: Option<String>,
}

pub struct EnvironmentStateView {
    pub environments: Seq<EnvironmentView>,
    pub active_environment_id: Option<Seq<char>>,
}

impl View for EnvironmentState {
    type V = EnvironmentStateView;

    open spec fn view(&self) -> EnvironmentStateView {
        EnvironmentStateView {
            environments: Seq::new(self.environments@.len(), |i: int| self.environments@[i]@),
            active_environment_id: text_view(self.active_environment_id),
        }
    }
}

impl Clone for EnvironmentState {
    fn clone(&self) -> (copy: Self)
        ensures
            copy@ == self@,
    {
        let mut environments: Vec<Environment> = Vec::new();
        let mut i: usize = 0;
        while i < self.environments.len()
            invariant
                i <= self.environments@.len(),
                environments@.len() == i,
                forall|k: int|
                    0 <= k < i ==> (#[trigger] environments@[k])@ == self.environments@[k]@,
            decreases self.environments@.len() - i,
        {
            environments.push(self.environments[i].clone());
            i = i + 1;
        }
        let copy = EnvironmentState {
            environments,
            active_environment_id: copy_text(&self.active_environment_id),
        };
        assert(copy@.environments =~= self@.environments);
        copy
    }
}

impl EnvironmentStateView {
    /// The state before anything was saved: no environments, none active.
    pub open spec fn empty() -> EnvironmentStateView {
        EnvironmentStateView { environments: Seq::empty(), active_environment_id: None }
    }
}

impl EnvironmentState {
    /// The state before anything was saved.
    pub fn empty() -> (state: EnvironmentState)
        ensures
            state@ == EnvironmentStateView::empty(),
    {
        let state = EnvironmentState { environments: Vec::new(), active_environment_id: None };
        assert(state@.environments =~= Seq::empty());
        state
    }
}

} // verus!
