//! The registry of active hotkeys.
//!
//! The registry maps each registered hotkey to the handle that the platform
//! gave for its hook and to the callback to run when it fires. It never
//! talks to the platform itself: installs and removals are handed in by the
//! caller, either as closures or as their outcomes.

use vstd::prelude::*;
use crate::error::Error;
use crate::error::OsError;
use crate::error::RegistryError;
use crate::hotkey::Hotkey;

verus! {

/// One registration: the hotkey, the platform's handle for its hook, and the
/// callback to run when it fires.
pub struct Entry<H, C> {
    pub hotkey: Hotkey,
    pub os_handle: H,
    pub callback: C,
}

/// Whether `hotkey` is registered in `entries`.
pub open spec fn registered<H, C>(entries: Seq<Entry<H, C>>, hotkey: Hotkey) -> bool {
    exists|i: int| 0 <= i < entries.len() && (#[trigger] entries[i]).hotkey == hotkey
}

/// The place of `hotkey` in `entries`, where it is registered.
pub open spec fn slot<H, C>(entries: Seq<Entry<H, C>>, hotkey: Hotkey) -> int {
    choose|i: int| 0 <= i < entries.len() && (#[trigger] entries[i]).hotkey == hotkey
}

/// No hotkey is registered twice.
pub open spec fn distinct<H, C>(entries: Seq<Entry<H, C>>) -> bool {
    forall|i: int, j: int|
        0 <= i < j < entries.len() ==> (#[trigger] entries[i]).hotkey != (
        #[trigger] entries[j]).hotkey
}

/// Registering `hotkey`, given how the install went if one is attempted: a
/// hotkey that is registered already fails and leaves the entries alone, a
/// failed install is passed on and leaves the entries alone, and a
/// successful one adds the entry at the end.
pub open spec fn register_step<H, C>(
    entries: Seq<Entry<H, C>>,
    hotkey: Hotkey,
    install: Result<H, OsError>,
    callback: C,
) -> (Seq<Entry<H, C>>, Result<(), Error>) {
    if registered(entries, hotkey) {
        (entries, Err(Error::Registry(RegistryError::AlreadyRegistered)))
    } else {
        match install {
            Ok(os_handle) => (entries.push(Entry { hotkey, os_handle, callback }), Ok(())),
            Err(e) => (entries, Err(Error::Os(e))),
        }
    }
}

/// Unregistering `hotkey`, given how the removal went if one is attempted:
/// a hotkey that is not registered fails, a failed removal is passed on and
/// leaves the entry in place, and a successful one takes the entry out.
pub open spec fn unregister_step<H, C>(
    entries: Seq<Entry<H, C>>,
    hotkey: Hotkey,
    removal: Result<(), OsError>,
) -> (Seq<Entry<H, C>>, Result<(), Error>) {
    if !registered(entries, hotkey) {
        (entries, Err(Error::Registry(RegistryError::NotRegistered)))
    } else {
        match removal {
            Ok(()) => (entries.remove(slot(entries, hotkey)), Ok(())),
            Err(e) => (entries, Err(Error::Os(e))),
        }
    }
}

/// Whether the entry at place `i` stays after a bulk removal: its removal
/// failed, or none was attempted for it.
pub open spec fn stays(removals: Seq<Result<(), OsError>>, i: int) -> bool {
    i >= removals.len() || removals[i] is Err
}

/// The entries that are left after a bulk removal in which `removals[i]` is
/// the outcome for `entries[i]`: those that stay, in their order.
pub open spec fn kept<H, C>(entries: Seq<Entry<H, C>>, removals: Seq<Result<(), OsError>>) -> Seq<
    Entry<H, C>,
>
    decreases entries.len(),
{
    if entries.len() == 0 {
        entries
    } else {
        let head = kept(entries.drop_last(), removals);
        if stays(removals, entries.len() - 1) {
            head.push(entries.last())
        } else {
            head
        }
    }
}

/// The first failure among `removals`, or success where none failed.
pub open spec fn first_failure(removals: Seq<Result<(), OsError>>) -> Result<(), OsError>
    decreases removals.len(),
{
    if removals.len() == 0 {
        Ok(())
    } else {
        match first_failure(removals.drop_last()) {
            Err(e) => Err(e),
            Ok(()) => removals.last(),
        }
    }
}

/// Where no hotkey occurs twice, an entry's place is the place of its hotkey.
pub proof fn lemma_slot<H, C>(entries: Seq<Entry<H, C>>, i: int)
    requires
        distinct(entries),
        0 <= i < entries.len(),
    ensures
        registered(entries, entries[i].hotkey),
        slot(entries, entries[i].hotkey) == i,
{
    let k = slot(entries, entries[i].hotkey);
    assert(0 <= k < entries.len() && entries[k].hotkey == entries[i].hotkey);
    if k < i {
        assert(entries[k].hotkey != entries[i].hotkey);
    }
    if i < k {
        assert(entries[i].hotkey != entries[k].hotkey);
    }
}

/// Registering a hotkey twice fails the second time, whatever an install
/// would have returned, and changes nothing.
pub proof fn lemma_second_register_fails<H, C>(
    entries: Seq<Entry<H, C>>,
    hotkey: Hotkey,
    install: Result<H, OsError>,
    callback: C,
    second_install: Result<H, OsError>,
    second_callback: C,
)
    requires
        register_step(entries, hotkey, install, callback).1 is Ok,
    ensures
        ({
            let after = register_step(entries, hotkey, install, callback).0;
            register_step(after, hotkey, second_install, second_callback) == (
                after,
                Err::<(), Error>(Error::Registry(RegistryError::AlreadyRegistered)),
            )
        }),
{
    lemma_register_shows(entries, hotkey, install, callback, hotkey);
}

/// A successful register makes the hotkey registered, keeps the hotkeys
/// unique and leaves every other hotkey as it was; a failed one changes
/// nothing.
pub proof fn lemma_register_shows<H, C>(
    entries: Seq<Entry<H, C>>,
    hotkey: Hotkey,
    install: Result<H, OsError>,
    callback: C,
    other: Hotkey,
)
    ensures
        ({
            let (after, r) = register_step(entries, hotkey, install, callback);
            &&& r is Ok ==> registered(after, hotkey)
            &&& r is Ok && other != hotkey ==> registered(after, other) == registered(
                entries,
                other,
            )
            &&& r is Ok && distinct(entries) ==> distinct(after)
            &&& r is Err ==> after == entries
        }),
{
    let (after, r) = register_step(entries, hotkey, install, callback);
    if r is Ok {
        let n = entries.len() as int;
        assert(after[n].hotkey == hotkey);
        assert(forall|i: int| 0 <= i < n ==> after[i] == entries[i]);
        if registered(entries, other) {
            let i = slot(entries, other);
            assert(after[i].hotkey == other);
        }
        if registered(after, other) && other != hotkey {
            let i = slot(after, other);
            assert(entries[i].hotkey == other);
        }
        if distinct(entries) {
            assert forall|i: int, j: int| 0 <= i < j < after.len() implies (
            #[trigger] after[i]).hotkey != (#[trigger] after[j]).hotkey by {
                assert(entries[i].hotkey == after[i].hotkey);
                if j < n {
                    assert(entries[j].hotkey == after[j].hotkey);
                }
            }
        }
    }
}

/// What is registered is what fires: right after a successful register, the
/// entry of the hotkey holds the handle that the install gave and the
/// callback that was handed in.
pub proof fn lemma_register_stores<H, C>(
    entries: Seq<Entry<H, C>>,
    hotkey: Hotkey,
    install: Result<H, OsError>,
    callback: C,
)
    requires
        register_step(entries, hotkey, install, callback).1 is Ok,
    ensures
        ({
            let after = register_step(entries, hotkey, install, callback).0;
            &&& registered(after, hotkey)
            &&& install is Ok
            &&& after[slot(after, hotkey)] == (Entry {
                hotkey,
                os_handle: install->Ok_0,
                callback,
            })
        }),
{
    let after = register_step(entries, hotkey, install, callback).0;
    let n = entries.len() as int;
    assert(after[n].hotkey == hotkey);
    let k = slot(after, hotkey);
    if k < n {
        assert(entries[k].hotkey == hotkey);
    }
}

/// A successful unregister makes the hotkey unregistered, keeps the
/// hotkeys unique and leaves every other hotkey as it was; a failed one
/// changes nothing.
pub proof fn lemma_unregister_shows<H, C>(
    entries: Seq<Entry<H, C>>,
    hotkey: Hotkey,
    removal: Result<(), OsError>,
    other: Hotkey,
)
    requires
        distinct(entries),
    ensures
        ({
            let (after, r) = unregister_step(entries, hotkey, removal);
            &&& r is Ok ==> !registered(after, hotkey)
            &&& r is Ok && other != hotkey ==> registered(after, other) == registered(
                entries,
                other,
            )
            &&& r is Ok ==> distinct(after)
            &&& r is Err ==> after == entries
        }),
{
    let (after, r) = unregister_step(entries, hotkey, removal);
    if r is Ok {
        let k = slot(entries, hotkey);
        assert(0 <= k < entries.len() && entries[k].hotkey == hotkey);
        assert forall|i: int| 0 <= i < after.len() implies after[i] == entries[if i < k {
            i
        } else {
            i + 1
        }] by {}
        if registered(after, hotkey) {
            let i = slot(after, hotkey);
            let i0 = if i < k { i } else { i + 1 };
            assert(after[i] == entries[i0]);
            if i0 < k {
                assert(entries[i0].hotkey != entries[k].hotkey);
            } else {
                assert(entries[k].hotkey != entries[i0].hotkey);
            }
        }
        if registered(entries, other) && other != hotkey {
            let i = slot(entries, other);
            let i1 = if i < k { i } else { i - 1 };
            assert(after[i1] == entries[i]);
        }
        if registered(after, other) {
            let i = slot(after, other);
            let i0 = if i < k { i } else { i + 1 };
            assert(entries[i0].hotkey == other);
        }
        assert forall|i: int, j: int| 0 <= i < j < after.len() implies (
        #[trigger] after[i]).hotkey != (#[trigger] after[j]).hotkey by {
            let i0 = if i < k { i } else { i + 1 };
            let j0 = if j < k { j } else { j + 1 };
            assert(after[i] == entries[i0]);
            assert(after[j] == entries[j0]);
            assert(entries[i0].hotkey != entries[j0].hotkey);
        }
    }
}

/// A hotkey is registered right after it was registered with success, and
/// is not right after it was unregistered with success.
pub proof fn lemma_registered_reflects_state<H, C>(
    entries: Seq<Entry<H, C>>,
    hotkey: Hotkey,
    install: Result<H, OsError>,
    callback: C,
    removal: Result<(), OsError>,
)
    requires
        distinct(entries),
    ensures
        register_step(entries, hotkey, install, callback).1 is Ok ==> registered(
            register_step(entries, hotkey, install, callback).0,
            hotkey,
        ),
        unregister_step(entries, hotkey, removal).1 is Ok ==> !registered(
            unregister_step(entries, hotkey, removal).0,
            hotkey,
        ),
{
    lemma_register_shows(entries, hotkey, install, callback, hotkey);
    lemma_unregister_shows(entries, hotkey, removal, hotkey);
}

/// Unregistering a hotkey that is not registered fails, whatever a removal
/// would have returned, and changes nothing.
pub proof fn lemma_unregister_absent<H, C>(
    entries: Seq<Entry<H, C>>,
    hotkey: Hotkey,
    removal: Result<(), OsError>,
)
    requires
        !registered(entries, hotkey),
    ensures
        unregister_step(entries, hotkey, removal) == (
            entries,
            Err::<(), Error>(Error::Registry(RegistryError::NotRegistered)),
        ),
{
}

/// One more entry: it is kept exactly when it stays.
pub proof fn lemma_kept_next<H, C>(
    entries: Seq<Entry<H, C>>,
    removals: Seq<Result<(), OsError>>,
    n: int,
)
    requires
        0 <= n < entries.len(),
    ensures
        kept(entries.take(n + 1), removals) == if stays(removals, n) {
            kept(entries.take(n), removals).push(entries[n])
        } else {
            kept(entries.take(n), removals)
        },
{
    assert(entries.take(n + 1).drop_last() =~= entries.take(n));
}

/// Where the removal fails for exactly one entry, that entry alone is left
/// and its failure is the one reported.
pub proof fn lemma_one_failure_leaves_one<H, C>(
    entries: Seq<Entry<H, C>>,
    removals: Seq<Result<(), OsError>>,
    k: int,
    e: OsError,
)
    requires
        removals.len() == entries.len(),
        0 <= k < entries.len(),
        removals[k] == Err::<(), OsError>(e),
        forall|i: int| 0 <= i < removals.len() && i != k ==> removals[i] is Ok,
    ensures
        kept(entries, removals) == seq![entries[k]],
        first_failure(removals) == Err::<(), OsError>(e),
{
    lemma_one_failure_upto(entries, removals, k, e, entries.len() as int);
    assert(entries.take(entries.len() as int) =~= entries);
    assert(removals.take(removals.len() as int) =~= removals);
}

/// The same, for the first `n` entries.
pub proof fn lemma_one_failure_upto<H, C>(
    entries: Seq<Entry<H, C>>,
    removals: Seq<Result<(), OsError>>,
    k: int,
    e: OsError,
    n: int,
)
    requires
        removals.len() == entries.len(),
        0 <= k < entries.len(),
        removals[k] == Err::<(), OsError>(e),
        forall|i: int| 0 <= i < removals.len() && i != k ==> removals[i] is Ok,
        0 <= n <= entries.len(),
    ensures
        kept(entries.take(n), removals) == if n > k {
            seq![entries[k]]
        } else {
            Seq::<Entry<H, C>>::empty()
        },
        first_failure(removals.take(n)) == if n > k {
            Err::<(), OsError>(e)
        } else {
            Ok(())
        },
    decreases n,
{
    if n == 0 {
        assert(entries.take(0) =~= Seq::<Entry<H, C>>::empty());
        assert(removals.take(0) =~= Seq::<Result<(), OsError>>::empty());
    } else {
        lemma_one_failure_upto(entries, removals, k, e, n - 1);
        lemma_kept_next(entries, removals, n - 1);
        let upto = removals.take(n);
        assert(upto.drop_last() =~= removals.take(n - 1));
        assert(upto.last() == removals[n - 1]);
        assert(first_failure(upto) == match first_failure(upto.drop_last()) {
            Err(e) => Err(e),
            Ok(()) => upto.last(),
        });
        if removals[n - 1] is Ok {
            let unit = removals[n - 1]->Ok_0;
            assert(removals[n - 1] == Ok::<(), OsError>(unit));
        }
        if n - 1 == k {
            assert(Seq::<Entry<H, C>>::empty().push(entries[k]) =~= seq![entries[k]]);
        }
    }
}

/// Where every removal succeeds, nothing is left and no failure is
/// reported: as many hooks were removed as had been installed.
pub proof fn lemma_all_removed<H, C>(
    entries: Seq<Entry<H, C>>,
    removals: Seq<Result<(), OsError>>,
    n: int,
)
    requires
        removals.len() == entries.len(),
        forall|i: int| 0 <= i < removals.len() ==> removals[i] is Ok,
        0 <= n <= entries.len(),
    ensures
        kept(entries.take(n), removals) == Seq::<Entry<H, C>>::empty(),
        first_failure(removals.take(n)) == Ok::<(), OsError>(()),
        n == entries.len() ==> kept(entries, removals) == Seq::<Entry<H, C>>::empty()
            && first_failure(removals) == Ok::<(), OsError>(()),
    decreases n,
{
    if n == 0 {
        assert(entries.take(0) =~= Seq::<Entry<H, C>>::empty());
        assert(removals.take(0) =~= Seq::<Result<(), OsError>>::empty());
    } else {
        lemma_all_removed(entries, removals, n - 1);
        lemma_kept_next(entries, removals, n - 1);
        let upto = removals.take(n);
        assert(upto.drop_last() =~= removals.take(n - 1));
        assert(upto.last() == removals[n - 1]);
        assert(first_failure(upto) == match first_failure(upto.drop_last()) {
            Err(e) => Err(e),
            Ok(()) => upto.last(),
        });
        if removals[n - 1] is Ok {
            let unit = removals[n - 1]->Ok_0;
            assert(removals[n - 1] == Ok::<(), OsError>(unit));
        }
    }
    if n == entries.len() {
        assert(entries.take(n) =~= entries);
        assert(removals.take(n) =~= removals);
    }
}

/// The registry: the entries in the order in which they were registered.
pub struct Registry<H, C> {
    entries: Vec<Entry<H, C>>,
}

impl<H, C> View for Registry<H, C> {
    type V = Seq<Entry<H, C>>;

    closed spec fn view(&self) -> Seq<Entry<H, C>> {
        self.entries@
    }
}

impl<H, C> Registry<H, C> {
    #[verifier::type_invariant]
    spec fn keys_unique(self) -> bool {
        distinct(self.entries@)
    }

    /// An empty registry.
    pub fn new() -> (r: Registry<H, C>)
        ensures
            r@ == Seq::<Entry<H, C>>::empty(),
    {
        Registry { entries: Vec::new() }
    }

    /// The entries, in the order in which they were registered.
    pub fn entries(&self) -> (r: &Vec<Entry<H, C>>)
        ensures
            r@ == self@,
            distinct(self@),
    {
        proof {
            use_type_invariant(self);
        }
        &self.entries
    }

    pub fn len(&self) -> (n: usize)
        ensures
            n == self@.len(),
    {
        self.entries.len()
    }

    pub fn is_empty(&self) -> (r: bool)
        ensures
            r == (self@.len() == 0),
    {
        self.entries.len() == 0
    }

    /// Moves the entries out and leaves the registry empty.
    fn take_entries(&mut self) -> (entries: Vec<Entry<H, C>>)
        ensures
            entries@ == old(self)@,
            distinct(entries@),
            final(self)@ == Seq::<Entry<H, C>>::empty(),
    {
        proof {
            use_type_invariant(&*self);
        }
        let mut entries: Vec<Entry<H, C>> = Vec::new();
        core::mem::swap(&mut self.entries, &mut entries);
        entries
    }

    /// Puts `entries` in the place of those that the registry holds.
    fn put_entries(&mut self, entries: Vec<Entry<H, C>>)
        requires
            distinct(entries@),
        ensures
            final(self)@ == entries@,
    {
        let mut entries = entries;
        core::mem::swap(&mut self.entries, &mut entries);
    }

    /// The place of `hotkey`, if it is registered.
    fn find(&self, hotkey: &Hotkey) -> (r: Option<usize>)
        ensures
            match r {
                Some(i) => registered(self@, *hotkey) && i == slot(self@, *hotkey) && i < self@.len()
                    && self@[i as int].hotkey == *hotkey,
                None => !registered(self@, *hotkey),
            },
    {
        proof {
            use_type_invariant(self);
        }
        let mut i: usize = 0;
        while i < self.entries.len()
            invariant
                i <= self.entries.len(),
                distinct(self.entries@),
                forall|j: int| 0 <= j < i ==> (#[trigger] self.entries@[j]).hotkey != *hotkey,
            decreases self.entries.len() - i,
        {
            if self.entries[i].hotkey == *hotkey {
                proof {
                    lemma_slot(self.entries@, i as int);
                }
                return Some(i);
            }
            i += 1;
        }
        None
    }

    /// Whether `hotkey` is registered. Changes nothing.
    pub fn is_registered(&self, hotkey: &Hotkey) -> (r: bool)
        ensures
            r == registered(self@, *hotkey),
    {
        self.find(hotkey).is_some()
    }

    /// The platform's handle for the hook of `hotkey`, if it is registered.
    pub fn handle_for(&self, hotkey: &Hotkey) -> (r: Option<&H>)
        ensures
            match r {
                Some(os_handle) => registered(self@, *hotkey) && *os_handle == self@[slot(
                    self@,
                    *hotkey,
                )].os_handle,
                None => !registered(self@, *hotkey),
            },
    {
        match self.find(hotkey) {
            Some(i) => Some(&self.entries[i].os_handle),
            None => None,
        }
    }

    /// The callback registered for `hotkey`, if there is one.
    pub fn callback_for(&self, hotkey: &Hotkey) -> (r: Option<&C>)
        ensures
            match r {
                Some(callback) => registered(self@, *hotkey) && *callback == self@[slot(
                    self@,
                    *hotkey,
                )].callback,
                None => !registered(self@, *hotkey),
            },
    {
        match self.find(hotkey) {
            Some(i) => Some(&self.entries[i].callback),
            None => None,
        }
    }

    /// Registers `hotkey` once the outcome of its install is known.
    pub fn record_install(&mut self, hotkey: Hotkey, install: Result<H, OsError>, callback: C) -> (r:
        Result<(), Error>)
        ensures
            (final(self)@, r) == register_step(old(self)@, hotkey, install, callback),
    {
        if self.find(&hotkey).is_some() {
            return Err(Error::Registry(RegistryError::AlreadyRegistered));
        }
        match install {
            Ok(os_handle) => {
                let mut entries = self.take_entries();
                entries.push(Entry { hotkey, os_handle, callback });
                self.put_entries(entries);
                Ok(())
            },
            Err(e) => Err(Error::Os(e)),
        }
    }

    /// Unregisters `hotkey` once the outcome of its removal is known.
    pub fn record_removal(&mut self, hotkey: &Hotkey, removal: Result<(), OsError>) -> (r: Result<
        (),
        Error,
    >)
        ensures
            (final(self)@, r) == unregister_step(old(self)@, *hotkey, removal),
    {
        match self.find(hotkey) {
            None => Err(Error::Registry(RegistryError::NotRegistered)),
            Some(i) => match removal {
                Ok(()) => {
                    let mut entries = self.take_entries();
                    entries.remove(i);
                    self.put_entries(entries);
                    Ok(())
                },
                Err(e) => Err(Error::Os(e)),
            },
        }
    }

    /// Settles a bulk removal once its outcomes are known: `removals[i]` is
    /// the outcome for the entry at place `i`. The entries whose removal
    /// succeeded leave; the first failure is reported.
    pub fn record_removals(&mut self, removals: &Vec<Result<(), OsError>>) -> (r: Result<
        (),
        OsError,
    >)
        ensures
            final(self)@ == kept(old(self)@, removals@),
            r == first_failure(removals@),
    {
        let mut entries = self.take_entries();
        let ghost initial = entries@;
        let n: usize = entries.len();
        let mut i: usize = 0;
        let mut j: usize = 0;
        assert(initial.take(0) =~= Seq::<Entry<H, C>>::empty());
        assert(initial.skip(0) =~= initial);
        assert(entries@ =~= kept(initial.take(0), removals@) + initial.skip(0));
        while i < n
            invariant
                i <= n == initial.len(),
                j <= i,
                j == kept(initial.take(i as int), removals@).len(),
                entries@.len() == j + initial.len() - i,
                entries@ == kept(initial.take(i as int), removals@) + initial.skip(i as int),
                distinct(entries@),
            decreases n - i,
        {
            let ghost head = kept(initial.take(i as int), removals@);
            let ghost before = entries@;
            proof {
                assert(initial.take(i + 1).drop_last() =~= initial.take(i as int));
                assert(initial.take(i + 1).last() == initial[i as int]);
                assert(before[j as int] == initial[i as int]);
            }
            let leaves = i < removals.len() && removals[i].is_ok();
            if leaves {
                entries.remove(j);
                assert(entries@ =~= head + initial.skip(i + 1));
                assert forall|a: int, b: int| 0 <= a < b < entries@.len() implies (
                #[trigger] entries@[a]).hotkey != (#[trigger] entries@[b]).hotkey by {
                    let a0 = if a < j { a } else { a + 1 };
                    let b0 = if b < j { b } else { b + 1 };
                    assert(entries@[a] == before[a0]);
                    assert(entries@[b] == before[b0]);
                }
            } else {
                assert(entries@ =~= head.push(initial[i as int]) + initial.skip(i + 1));
                j += 1;
            }
            i += 1;
        }
        assert(initial.take(i as int) =~= initial);
        assert(entries@ =~= kept(initial, removals@));
        self.put_entries(entries);
        let mut result: Result<(), OsError> = Ok(());
        let mut k: usize = 0;
        assert(removals@.take(0) =~= Seq::<Result<(), OsError>>::empty());
        while k < removals.len()
            invariant
                k <= removals.len(),
                result == first_failure(removals@.take(k as int)),
            decreases removals.len() - k,
        {
            assert(removals@.take(k + 1).drop_last() =~= removals@.take(k as int));
            if result.is_ok() {
                result = removals[k];
            }
            k += 1;
        }
        assert(removals@.take(k as int) =~= removals@);
        result
    }

    /// Registers `hotkey`: installs its hook by `os_install` and stores the
    /// entry. A hotkey that is registered already fails before any install
    /// is attempted; a failed install is passed on and nothing is stored.
    pub fn register<F>(&mut self, hotkey: Hotkey, os_install: F, callback: C) -> (r: Result<
        (),
        Error,
    >) where F: FnOnce() -> Result<H, OsError>
        requires
            !registered(old(self)@, hotkey) ==> os_install.requires(()),
        ensures
            registered(old(self)@, hotkey) ==> final(self)@ == old(self)@ && r == Err::<(), Error>(
                Error::Registry(RegistryError::AlreadyRegistered),
            ),
            !registered(old(self)@, hotkey) ==> exists|install: Result<H, OsError>|
                os_install.ensures((), install) && (final(self)@, r) == register_step(
                    old(self)@,
                    hotkey,
                    install,
                    callback,
                ),
    {
        if self.is_registered(&hotkey) {
            return Err(Error::Registry(RegistryError::AlreadyRegistered));
        }
        let install = os_install();
        self.record_install(hotkey, install, callback)
    }

    /// Unregisters `hotkey`: removes its hook by `os_remove` and drops the
    /// entry. A hotkey that is not registered fails before any removal is
    /// attempted; a failed removal is passed on and the entry stays, so the
    /// call can be made again.
    pub fn unregister<F>(&mut self, hotkey: &Hotkey, os_remove: F) -> (r: Result<(), Error>) where
        F: FnOnce(&H) -> Result<(), OsError>,

        requires
            registered(old(self)@, *hotkey) ==> os_remove.requires(
                (&old(self)@[slot(old(self)@, *hotkey)].os_handle,),
            ),
        ensures
            !registered(old(self)@, *hotkey) ==> final(self)@ == old(self)@ && r == Err::<
                (),
                Error,
            >(Error::Registry(RegistryError::NotRegistered)),
            registered(old(self)@, *hotkey) ==> exists|removal: Result<(), OsError>|
                os_remove.ensures((&old(self)@[slot(old(self)@, *hotkey)].os_handle,), removal)
                    && (final(self)@, r) == unregister_step(old(self)@, *hotkey, removal),
    {
        let removal = match self.handle_for(hotkey) {
            None => {
                return Err(Error::Registry(RegistryError::NotRegistered));
            },
            Some(os_handle) => os_remove(os_handle),
        };
        self.record_removal(hotkey, removal)
    }

    /// Removes the hook of every entry by `os_remove`, in the order of
    /// registration, going on after a failure. The entries whose removal
    /// succeeded leave; the first failure is reported.
    pub fn unregister_all<F>(&mut self, os_remove: F) -> (r: Result<(), OsError>) where
        F: Fn(&H) -> Result<(), OsError>,

        requires
            forall|i: int|
                0 <= i < old(self)@.len() ==> os_remove.requires((&old(self)@[i].os_handle,)),
        ensures
            exists|removals: Seq<Result<(), OsError>>|
                removals.len() == old(self)@.len() && (forall|i: int|
                    0 <= i < old(self)@.len() ==> os_remove.ensures(
                        (&old(self)@[i].os_handle,),
                        #[trigger] removals[i],
                    )) && final(self)@ == kept(old(self)@, removals) && r == first_failure(
                    removals,
                ),
    {
        let mut removals: Vec<Result<(), OsError>> = Vec::new();
        let mut i: usize = 0;
        while i < self.entries.len()
            invariant
                i <= self.entries.len(),
                self.entries@ == old(self)@,
                removals@.len() == i,
                forall|k: int|
                    0 <= k < old(self)@.len() ==> os_remove.requires((&old(self)@[k].os_handle,)),
                forall|k: int|
                    0 <= k < i ==> os_remove.ensures(
                        (&old(self)@[k].os_handle,),
                        #[trigger] removals@[k],
                    ),
            decreases self.entries.len() - i,
        {
            let removal = os_remove(&self.entries[i].os_handle);
            removals.push(removal);
            i += 1;
        }
        self.record_removals(&removals)
    }

    /// Tears the registry down: removes every hook by `os_remove` as
    /// `unregister_all` does, and reports no failure. The entries whose
    /// hook could not be removed are handed back.
    pub fn teardown<F>(self, os_remove: F) -> (left: Vec<Entry<H, C>>) where
        F: Fn(&H) -> Result<(), OsError>,

        requires
            forall|i: int| 0 <= i < self@.len() ==> os_remove.requires((&self@[i].os_handle,)),
        ensures
            exists|removals: Seq<Result<(), OsError>>|
                removals.len() == self@.len() && (forall|i: int|
                    0 <= i < self@.len() ==> os_remove.ensures(
                        (&self@[i].os_handle,),
                        #[trigger] removals[i],
                    )) && left@ == kept(self@, removals),
    {
        let mut registry = self;
        let _ = registry.unregister_all(os_remove);
        registry.take_entries()
    }

    /// Delivers a key event: where `event` is registered, hands its callback
    /// to `schedule`, once; where it is not, nothing is scheduled.
    pub fn dispatch<F>(&self, event: &Hotkey, schedule: F) -> (r: bool) where F: FnOnce(&C)
        requires
            registered(self@, *event) ==> schedule.requires(
                (&self@[slot(self@, *event)].callback,),
            ),
        ensures
            r == registered(self@, *event),
            r ==> schedule.ensures((&self@[slot(self@, *event)].callback,), ()),
    {
        match self.callback_for(event) {
            Some(callback) => {
                schedule(callback);
                true
            },
            None => false,
        }
    }
}

} // verus!
