//! In-memory credential store.
//!
//! A stand-in for a platform secret store: credentials live in a plain
//! in-process map for the life of the service and are gone when it is
//! dropped. Nothing here is secure storage; it is the interface the rest
//! of the application programs against until a real keychain backs it.
use vstd::prelude::*;
use vstd::string::StringExecFns;

use crate::assoc::distinct_keys;
use crate::assoc::entries_map;
use crate::assoc::lemma_entries_map_get;
use crate::assoc::lemma_entries_map_push;
use crate::assoc::lemma_entries_map_remove;
use crate::strutil::str_eq;

verus! {

/// A stored API credential as handed to the UI layer.
pub struct APIKey {
    pub service: String,
    pub key: String,
    pub created_at: String,
}

/// Why a keychain request failed.
#[derive(Clone, Copy, Debug, PartialEq, Eq, Structural)]
pub enum KeychainError {
    /// No credential is stored under the requested service name.
    NotFound,
}

impl KeychainError {
    /// A short description of the failure.
    pub fn message(&self) -> (m: String)
        ensures
            m@ == "key not found for service"@,
    {
        String::from_str("key not found for service")
    }
}

/// The credential store: a map from service name to API key, held in
/// memory only.
pub struct KeychainService {
    store: Vec<(String, String)>,
}

impl KeychainService {
    /// The stored credentials, as a map from service name to key.
    pub closed spec fn store_map(&self) -> Map<Seq<char>, Seq<char>> {
        entries_map(self.store@)
    }

    /// The stored service names, in the order the store keeps them.
    pub closed spec fn service_names(&self) -> Seq<Seq<char>> {
        self.store@.map_values(|e: (String, String)| e.0@)
    }

    /// The store holds each service name at most once.
    pub closed spec fn wf(&self) -> bool {
        distinct_keys(self.store@)
    }

    /// Creates an empty store.
    pub fn new() -> (s: Self)
        ensures
            s.wf(),
            s.store_map() == Map::<Seq<char>, Seq<char>>::empty(),
    {
        Self { store: Vec::new() }
    }

    fn find_index(&self, service: &str) -> (r: Option<usize>)
        ensures
            match r {
                Some(i) => i < self.store@.len() && self.store@[i as int].0@ == service@,
                None => forall|j: int|
                    0 <= j < self.store@.len() ==> (#[trigger] self.store@[j]).0@ != service@,
            },
    {
        let n = self.store.len();
        let mut i: usize = 0;
        while i < n
            invariant
                n == self.store@.len(),
                i <= n,
                forall|j: int| 0 <= j < i ==> (#[trigger] self.store@[j]).0@ != service@,
            decreases n - i,
        {
            if str_eq(self.store[i].0.as_str(), service) {
                return Some(i);
            }
            i = i + 1;
        }
        None
    }

    /// Stores a key under a service name, replacing any key already held
    /// for that service. Storing never fails.
    pub fn store_key(&mut self, service: &str, key: &str) -> (r: Result<(), KeychainError>)
        requires
            old(self).wf(),
        ensures
            final(self).wf(),
            r.is_ok(),
            final(self).store_map() == old(self).store_map().insert(service@, key@),
    {
        let ghost map0 = self.store_map();
        match self.find_index(service) {
            Some(i) => {
                proof {
                    lemma_entries_map_remove(self.store@, i as int);
                }
                let _ = self.store.remove(i);
                proof {
                    assert(self.store_map() =~= map0.remove(service@));
                }
            },
            None => {
                proof {
                    lemma_entries_map_get(self.store@, service@);
                }
            },
        }
        let ghost before = self.store@;
        let new_entry = (String::from_str(service), String::from_str(key));
        proof {
            lemma_entries_map_push(self.store@, new_entry);
        }
        self.store.push(new_entry);
        proof {
            assert(forall|j: int| 0 <= j < before.len() ==> #[trigger] self.store@[j] == before[
                j
            ]);
            assert(forall|j: int|
                0 <= j < before.len() ==> (#[trigger] before[j]).0@ != service@);
            assert(self.store_map() =~= old(self).store_map().insert(service@, key@));
        }
        Ok(())
    }

    /// Hands back the key stored for a service, or reports that none is
    /// held: `Ok` exactly when the service has a stored key.
    pub fn get_key(&self, service: &str) -> (r: Result<String, KeychainError>)
        requires
            self.wf(),
        ensures
            match r {
                Ok(v) => self.store_map().dom().contains(service@) && v@ == self.store_map()[
                    service@
                ],
                Err(e) => !self.store_map().dom().contains(service@) && e
                    == KeychainError::NotFound,
            },
    {
        proof {
            lemma_entries_map_get(self.store@, service@);
        }
        match self.find_index(service) {
            Some(i) => {
                proof {
                    assert(forall|j: int|
                        i < j < self.store@.len() ==> (#[trigger] self.store@[j]).0@ != service@);
                }
                Ok(self.store[i].1.clone())
            },
            None => Err(KeychainError::NotFound),
        }
    }

    /// Deletes the key stored for a service: `Ok` exactly when one was
    /// held, in which case it is gone afterwards.
    pub fn delete_key(&mut self, service: &str) -> (r: Result<(), KeychainError>)
        requires
            old(self).wf(),
        ensures
            final(self).wf(),
            r.is_ok() <==> old(self).store_map().dom().contains(service@),
            r.is_ok() ==> final(self).store_map() == old(self).store_map().remove(service@),
            !r.is_ok() ==> final(self).store_map() == old(self).store_map() && r == Result::<
                (),
                KeychainError,
            >::Err(KeychainError::NotFound),
    {
        proof {
            lemma_entries_map_get(self.store@, service@);
        }
        match self.find_index(service) {
            Some(i) => {
                proof {
                    lemma_entries_map_remove(self.store@, i as int);
                }
                let _ = self.store.remove(i);
                Ok(())
            },
            None => Err(KeychainError::NotFound),
        }
    }

    /// Reports whether a key is stored for the service.
    pub fn has_key(&self, service: &str) -> (r: bool)
        requires
            self.wf(),
        ensures
            r == self.store_map().dom().contains(service@),
    {
        proof {
            lemma_entries_map_get(self.store@, service@);
        }
        match self.find_index(service) {
            Some(_) => true,
            None => false,
        }
    }

    /// Lists the service names with stored keys, in the order the store
    /// keeps them; a name is listed exactly when it has a stored key.
    pub fn list_services(&self) -> (r: Result<Vec<String>, KeychainError>)
        requires
            self.wf(),
        ensures
            r.is_ok(),
            match r {
                Ok(v) => v.deep_view() == self.service_names() && (forall|k: Seq<char>|
                    self.store_map().dom().contains(k) <==> self.service_names().contains(k)),
                Err(_) => false,
            },
    {
        let n = self.store.len();
        let mut names: Vec<String> = Vec::new();
        let mut i: usize = 0;
        while i < n
            invariant
                n == self.store@.len(),
                i <= n,
                names.deep_view() =~= self.service_names().take(i as int),
            decreases n - i,
        {
            let ghost prev = names.deep_view();
            names.push(self.store[i].0.clone());
            proof {
                assert(names.deep_view() =~= prev.push(self.store@[i as int].0@));
                assert(prev.push(self.store@[i as int].0@) =~= self.service_names().take(
                    i as int + 1,
                ));
            }
            i = i + 1;
        }
        proof {
            assert(self.service_names().take(n as int) =~= self.service_names());
            assert forall|k: Seq<char>|
                self.store_map().dom().contains(k) <==> self.service_names().contains(k) by {
                lemma_entries_map_get(self.store@, k);
                if self.store_map().dom().contains(k) {
                    let i = choose|i: int|
                        0 <= i < self.store@.len() && (#[trigger] self.store@[i]).0@ == k;
                    assert(self.service_names()[i] == k);
                }
                if self.service_names().contains(k) {
                    let i = choose|i: int|
                        0 <= i < self.service_names().len() && self.service_names()[i] == k;
                    assert(self.store@[i].0@ == k);
                }
            }
        }
        Ok(names)
    }
}

impl Default for KeychainService {
    /// A fresh store holding nothing.
    fn default() -> (s: Self)
        ensures
            s.wf(),
            s.store_map() == Map::<Seq<char>, Seq<char>>::empty(),
    {
        Self::new()
    }
}

} // verus!
