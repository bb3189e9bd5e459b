//! The set of stores and whether they have been loaded.
use vstd::prelude::*;

verus! {

/// Whether the registered stores have been loaded.
#[derive(Clone, Copy, Debug, PartialEq, Eq, Structural)]
pub enum StoragesStatus {
    Created,
    Initialized,
}

impl Default for StoragesStatus {
    fn default() -> (r: StoragesStatus)
        ensures
            r == StoragesStatus::Created,
    {
        StoragesStatus::Created
    }
}

/// Registered stores, named by namespace, loaded and flushed in
/// registration order.
pub struct StorageManager {
    status: StoragesStatus,
    storages: Vec<String>,
}

impl StorageManager {
    pub closed spec fn status_spec(&self) -> StoragesStatus {
        self.status
    }

    /// Namespaces in registration order.
    pub closed spec fn names(&self) -> Seq<Seq<char>> {
        crate::doc_status::sv(self.storages@)
    }

    pub fn new() -> (r: StorageManager)
        ensures
            r.status_spec() == StoragesStatus::Created,
            r.names() == Seq::<Seq<char>>::empty(),
    {
        let r = StorageManager { status: StoragesStatus::Created, storages: Vec::new() };
        assert(r.names() =~= Seq::<Seq<char>>::empty());
        r
    }

    pub fn status(&self) -> (r: StoragesStatus)
        ensures
            r == self.status_spec(),
    {
        self.status
    }

    pub fn register(&mut self, namespace: String)
        ensures
            final(self).status_spec() == old(self).status_spec(),
            final(self).names() == old(self).names().push(namespace@),
    {
        self.storages.push(namespace);
        assert(self.names() =~= old(self).names().push(namespace@));
    }

    pub fn is_empty(&self) -> (r: bool)
        ensures
            r == (self.names().len() == 0),
    {
        self.storages.len() == 0
    }

    /// The namespaces to load, in order, and the manager marked
    /// initialized; none when it already was.
    pub fn initialize_all(&mut self) -> (r: Vec<String>)
        ensures
            final(self).status_spec() == StoragesStatus::Initialized,
            final(self).names() == old(self).names(),
            old(self).status_spec() == StoragesStatus::Initialized ==> r@.len() == 0,
            old(self).status_spec() == StoragesStatus::Created ==> crate::doc_status::sv(r@) == old(self).names(),
    {
        if self.status == StoragesStatus::Initialized {
            return Vec::new();
        }
        self.status = StoragesStatus::Initialized;
        crate::doc_status::clone_strings(&self.storages)
    }

    /// The namespaces to flush, in order.
    pub fn finalize_all(&self) -> (r: Vec<String>)
        ensures
            crate::doc_status::sv(r@) == self.names(),
    {
        crate::doc_status::clone_strings(&self.storages)
    }
}

} // verus!
