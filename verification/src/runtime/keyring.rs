//! The keyring of the host interface: credentials by namespace, of which a
//! module reads only the namespaces that its metadata declares.

use crate::error::Error;
use crate::metadata::{texts_of, Metadata};
use crate::runtime::State;
use crate::text::same_text;
use vstd::prelude::*;

verus! {

/// One credential of the keyring.
#[derive(Clone, PartialEq, Eq, Debug)]
pub struct KeyRingEntry {
    pub namespace: String,
    pub access_key: String,
    pub secret_key: Option<String>,
}

/// The keyring. It is not written while modules run.
#[derive(Clone, PartialEq, Eq, Debug)]
pub struct KeyRing {
    pub entries: Vec<KeyRingEntry>,
}

/// The mathematical value of a [`KeyRingEntry`].
pub struct KeyRingEntryView {
    pub namespace: Seq<char>,
    pub access_key: Seq<char>,
    pub secret_key: Option<Seq<char>>,
}

impl View for KeyRingEntry {
    type V = KeyRingEntryView;

    open spec fn view(&self) -> KeyRingEntryView {
        KeyRingEntryView {
            namespace: self.namespace@,
            access_key: self.access_key@,
            secret_key: crate::metadata::text_of(self.secret_key),
        }
    }
}

/// The views of a list of entries.
pub open spec fn entries_of(v: Seq<KeyRingEntry>) -> Seq<KeyRingEntryView> {
    v.map_values(|e: KeyRingEntry| e@)
}

/// What a module that declares access to the namespaces `access` gets for
/// `namespace`: the entries of that namespace, in the order of the keyring,
/// or `KeyringDenied` where it did not declare the namespace.
pub open spec fn granted(
    access: Seq<Seq<char>>,
    entries: Seq<KeyRingEntryView>,
    namespace: Seq<char>,
) -> Result<Seq<KeyRingEntryView>, Error> {
    if access.contains(namespace) {
        Ok(entries.filter(|e: KeyRingEntryView| e.namespace == namespace))
    } else {
        Err(Error::KeyringDenied)
    }
}

/// Whether the module declares access to `namespace`.
pub fn declares(metadata: &Metadata, namespace: &str) -> (r: bool)
    ensures
        r == texts_of(metadata.keyring_access@).contains(namespace@),
{
    let ghost access = texts_of(metadata.keyring_access@);
    let mut i: usize = 0;
    while i < metadata.keyring_access.len()
        invariant
            i <= metadata.keyring_access.len(),
            access == texts_of(metadata.keyring_access@),
            forall|k: int| 0 <= k < i ==> access[k] != namespace@,
        decreases metadata.keyring_access.len() - i,
    {
        assert(access[i as int] == metadata.keyring_access@[i as int]@);
        if same_text(&metadata.keyring_access[i], namespace) {
            return true;
        }
        i += 1;
    }
    false
}

impl KeyRing {
    /// The entries of a namespace, in the order of the keyring.
    pub fn get_all_for(&self, namespace: &str) -> (r: Vec<KeyRingEntry>)
        ensures
            entries_of(r@) == entries_of(self.entries@).filter(
                |e: KeyRingEntryView| e.namespace == namespace@,
            ),
    {
        let ghost all = entries_of(self.entries@);
        let ghost p = |e: KeyRingEntryView| e.namespace == namespace@;
        let mut out: Vec<KeyRingEntry> = Vec::new();
        let mut i: usize = 0;
        assert(all.take(0) =~= Seq::<KeyRingEntryView>::empty());
        assert(entries_of(out@) =~= Seq::<KeyRingEntryView>::empty());
        while i < self.entries.len()
            invariant
                i <= self.entries.len(),
                all == entries_of(self.entries@),
                p == |e: KeyRingEntryView| e.namespace == namespace@,
                entries_of(out@) == all.take(i as int).filter(p),
            decreases self.entries.len() - i,
        {
            let e = &self.entries[i];
            proof {
                assert(all[i as int] == e@);
                assert(all.take(i + 1) =~= all.take(i as int).push(e@));
                Seq::lemma_filter_push(all.take(i as int), e@, p);
            }
            if same_text(&e.namespace, namespace) {
                let copy = KeyRingEntry {
                    namespace: e.namespace.clone(),
                    access_key: e.access_key.clone(),
                    secret_key: match &e.secret_key {
                        Some(s) => Some(s.clone()),
                        None => None,
                    },
                };
                let ghost prev = out@;
                out.push(copy);
                assert(entries_of(out@) =~= entries_of(prev).push(e@));
            }
            i += 1;
        }
        assert(all.take(i as int) =~= all);
        out
    }
}

/// Host function `keyring`: the entries of `namespace`, for a module with
/// the metadata `metadata`. A module that did not declare the namespace
/// gets `KeyringDenied`, which is recorded in the error slot.
pub fn keyring(namespace: &str, metadata: &Metadata, ring: &KeyRing, state: &mut State) -> (r:
    Result<Vec<KeyRingEntry>, Error>)
    ensures
        match granted(metadata@.keyring_access, entries_of(ring.entries@), namespace@) {
            Ok(entries) => r matches Ok(v) && entries_of(v@) == entries,
            Err(e) => r == Err::<Vec<KeyRingEntry>, Error>(e),
        },
        *final(state) == old(state).after(r),
{
    let found = if declares(metadata, namespace) {
        Ok(ring.get_all_for(namespace))
    } else {
        Err(Error::KeyringDenied)
    };
    state.checked(found)
}

/// A module that declared a namespace gets the entries of that namespace,
/// each of them and no other, and the error slot is empty afterwards,
/// whatever it held.
pub proof fn law_declared_namespace_is_granted(
    access: Seq<Seq<char>>,
    entries: Seq<KeyRingEntryView>,
    namespace: Seq<char>,
    state: State,
)
    requires
        access.contains(namespace),
    ensures
        granted(access, entries, namespace) matches Ok(list) && (forall|i: int|
            0 <= i < list.len() ==> (#[trigger] list[i]).namespace == namespace) && (forall|
            j: int,
        |
            0 <= j < entries.len() && (#[trigger] entries[j]).namespace == namespace
                ==> list.contains(entries[j])),
        state.after(granted(access, entries, namespace)).error is None,
{
    entries.filter_lemma(|e: KeyRingEntryView| e.namespace == namespace);
}

/// A module that did not declare a namespace gets no entry of it, whatever
/// the keyring holds: the call fails with `KeyringDenied`, which is recorded
/// in the error slot.
pub proof fn law_undeclared_namespace_is_denied(
    access: Seq<Seq<char>>,
    entries: Seq<KeyRingEntryView>,
    namespace: Seq<char>,
    state: State,
)
    requires
        !access.contains(namespace),
    ensures
        granted(access, entries, namespace) == Err::<Seq<KeyRingEntryView>, Error>(
            Error::KeyringDenied,
        ),
        state.after(granted(access, entries, namespace)).error == Some(Error::KeyringDenied),
{
}

} // verus!
