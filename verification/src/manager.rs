//! The hotkey manager: the registry, addressed by hotkey descriptions.

use vstd::prelude::*;
use crate::error::Error;
use crate::error::ErrorView;
use crate::error::OsError;
use crate::error::ParseError;
use crate::error::RegistryError;
use crate::hotkey::Hotkey;
use crate::parser::parse;
use crate::parser::parse_spec;
use crate::registry::first_failure;
use crate::registry::kept;
use crate::registry::register_step;
use crate::registry::registered;
use crate::registry::slot;
use crate::registry::unregister_step;
use crate::registry::Entry;
use crate::registry::Registry;

verus! {

/// A result as contracts see it: the error by its view.
pub open spec fn result_view<T>(r: Result<T, Error>) -> Result<T, ErrorView> {
    match r {
        Ok(value) => Ok(value),
        Err(e) => Err(e@),
    }
}

/// Registering by description: a description that does not parse fails and
/// changes nothing; otherwise the hotkey it names is registered.
pub open spec fn register_described<H, C>(
    entries: Seq<Entry<H, C>>,
    description: Seq<char>,
    install: Result<H, OsError>,
    callback: C,
) -> (Seq<Entry<H, C>>, Result<(), ErrorView>) {
    match parse_spec(description) {
        Err(e) => (entries, Err(ErrorView::Parse(e))),
        Ok(hotkey) => {
            let (after, r) = register_step(entries, hotkey, install, callback);
            (after, result_view(r))
        },
    }
}

/// Unregistering by description: a description that does not parse fails
/// and changes nothing; otherwise the hotkey it names is unregistered.
pub open spec fn unregister_described<H, C>(
    entries: Seq<Entry<H, C>>,
    description: Seq<char>,
    removal: Result<(), OsError>,
) -> (Seq<Entry<H, C>>, Result<(), ErrorView>) {
    match parse_spec(description) {
        Err(e) => (entries, Err(ErrorView::Parse(e))),
        Ok(hotkey) => {
            let (after, r) = unregister_step(entries, hotkey, removal);
            (after, result_view(r))
        },
    }
}

/// Registering twice under descriptions that name the same hotkey, however
/// they are written, fails the second time with `AlreadyRegistered`,
/// whatever an install would have returned, and changes nothing.
pub proof fn lemma_same_hotkey_twice<H, C>(
    entries: Seq<Entry<H, C>>,
    first: Seq<char>,
    second: Seq<char>,
    install: Result<H, OsError>,
    callback: C,
    second_install: Result<H, OsError>,
    second_callback: C,
)
    requires
        parse_spec(first) is Ok,
        parse_spec(second) == parse_spec(first),
        register_described(entries, first, install, callback).1 is Ok,
    ensures
        ({
            let after = register_described(entries, first, install, callback).0;
            register_described(after, second, second_install, second_callback) == (
                after,
                Err::<(), ErrorView>(ErrorView::Registry(RegistryError::AlreadyRegistered)),
            )
        }),
{
    let hotkey = parse_spec(first)->Ok_0;
    crate::registry::lemma_second_register_fails(
        entries,
        hotkey,
        install,
        callback,
        second_install,
        second_callback,
    );
}

/// A hotkey manager: a registry whose operations take descriptions.
pub struct HotkeyManager<H, C> {
    pub registry: Registry<H, C>,
}

impl<H, C> View for HotkeyManager<H, C> {
    type V = Seq<Entry<H, C>>;

    open spec fn view(&self) -> Seq<Entry<H, C>> {
        self.registry@
    }
}

impl<H, C> HotkeyManager<H, C> {
    /// A manager with an empty registry.
    pub fn new() -> (r: HotkeyManager<H, C>)
        ensures
            r@ == Seq::<Entry<H, C>>::empty(),
    {
        HotkeyManager { registry: Registry::new() }
    }

    /// Decides whether a register may go on to the install: the hotkey
    /// that `description` names, unless the description does not parse or
    /// the hotkey is registered already. Changes nothing.
    pub fn begin_register(&self, description: &str) -> (r: Result<Hotkey, Error>)
        ensures
            result_view(r) == match parse_spec(description@) {
                Err(e) => Err::<Hotkey, ErrorView>(ErrorView::Parse(e)),
                Ok(hotkey) => if registered(self@, hotkey) {
                    Err(ErrorView::Registry(RegistryError::AlreadyRegistered))
                } else {
                    Ok(hotkey)
                },
            },
    {
        match parse(description) {
            Err(e) => Err(Error::Parse(e)),
            Ok(hotkey) => {
                if self.registry.is_registered(&hotkey) {
                    Err(Error::Registry(RegistryError::AlreadyRegistered))
                } else {
                    Ok(hotkey)
                }
            },
        }
    }

    /// Decides whether an unregister may go on to the removal: the hotkey
    /// that `description` names, unless the description does not parse or
    /// the hotkey is not registered. Changes nothing.
    pub fn begin_unregister(&self, description: &str) -> (r: Result<Hotkey, Error>)
        ensures
            result_view(r) == match parse_spec(description@) {
                Err(e) => Err::<Hotkey, ErrorView>(ErrorView::Parse(e)),
                Ok(hotkey) => if registered(self@, hotkey) {
                    Ok(hotkey)
                } else {
                    Err(ErrorView::Registry(RegistryError::NotRegistered))
                },
            },
    {
        match parse(description) {
            Err(e) => Err(Error::Parse(e)),
            Ok(hotkey) => {
                if self.registry.is_registered(&hotkey) {
                    Ok(hotkey)
                } else {
                    Err(Error::Registry(RegistryError::NotRegistered))
                }
            },
        }
    }

    /// Registers the hotkey that `description` names. `os_install` is
    /// called with that hotkey, and only where the description parses and
    /// the hotkey is not registered yet.
    pub fn register<F>(&mut self, description: &str, os_install: F, callback: C) -> (r: Result<
        (),
        Error,
    >) where F: FnOnce(&Hotkey) -> Result<H, OsError>
        requires
            forall|hotkey: Hotkey|
                !registered(old(self)@, hotkey) ==> os_install.requires((&hotkey,)),
        ensures
            exists|install: Result<H, OsError>|
                (final(self)@, result_view(r)) == register_described(
                    old(self)@,
                    description@,
                    install,
                    callback,
                ) && (parse_spec(description@) matches Ok(hotkey) ==> (!registered(
                    old(self)@,
                    hotkey,
                ) ==> os_install.ensures((&hotkey,), install))),
    {
        let hotkey = match self.begin_register(description) {
            Ok(hotkey) => hotkey,
            Err(e) => {
                let r = Err(e);
                proof {
                    let any: Result<H, OsError> = Err(OsError::UnsupportedKey);
                    assert((self@, result_view(r)) == register_described(
                        old(self)@,
                        description@,
                        any,
                        callback,
                    ));
                }
                return r;
            },
        };
        let install = os_install(&hotkey);
        let r = self.registry.record_install(hotkey, install, callback);
        proof {
            assert((self@, result_view(r)) == register_described(
                old(self)@,
                description@,
                install,
                callback,
            ));
        }
        r
    }

    /// Unregisters the hotkey that `description` names. `os_remove` is
    /// called with the handle of its hook, and only where the description
    /// parses and the hotkey is registered.
    pub fn unregister<F>(&mut self, description: &str, os_remove: F) -> (r: Result<(), Error>) where
        F: FnOnce(&H) -> Result<(), OsError>,

        requires
            forall|i: int|
                0 <= i < old(self)@.len() ==> os_remove.requires((&old(self)@[i].os_handle,)),
        ensures
            exists|removal: Result<(), OsError>|
                (final(self)@, result_view(r)) == unregister_described(
                    old(self)@,
                    description@,
                    removal,
                ) && (parse_spec(description@) matches Ok(hotkey) ==> (registered(
                    old(self)@,
                    hotkey,
                ) ==> os_remove.ensures(
                    (&old(self)@[slot(old(self)@, hotkey)].os_handle,),
                    removal,
                ))),
    {
        let hotkey = match parse(description) {
            Ok(hotkey) => hotkey,
            Err(e) => {
                let r = Err(Error::Parse(e));
                proof {
                    assert((self@, result_view(r)) == unregister_described(
                        old(self)@,
                        description@,
                        Ok(()),
                    ));
                }
                return r;
            },
        };
        let removal = match self.registry.handle_for(&hotkey) {
            None => {
                let r = Err(Error::Registry(RegistryError::NotRegistered));
                proof {
                    assert((self@, result_view(r)) == unregister_described(
                        old(self)@,
                        description@,
                        Ok(()),
                    ));
                }
                return r;
            },
            Some(os_handle) => os_remove(os_handle),
        };
        let r = self.registry.record_removal(&hotkey, removal);
        proof {
            assert((self@, result_view(r)) == unregister_described(
                old(self)@,
                description@,
                removal,
            ));
        }
        r
    }

    /// Unregisters every hotkey, as the registry's `unregister_all` does.
    pub fn unregister_all<F>(&mut self, os_remove: F) -> (r: Result<(), OsError>) where
        F: Fn(&H) -> Result<(), OsError>,

        requires
            forall|i: int|
                0 <= i < old(self)@.len() ==> os_remove.requires((&old(self)@[i].os_handle,)),
        ensures
            exists|removals: Seq<Result<(), OsError>>|
                removals.len() == old(self)@.len() && (forall|i: int|
                    0 <= i < old(self)@.len() ==> os_remove.ensures(
                        (&old(self)@[i].os_handle,),
                        #[trigger] removals[i],
                    )) && final(self)@ == kept(old(self)@, removals) && r == first_failure(
                    removals,
                ),
    {
        assert(self@ == self.registry@);
        self.registry.unregister_all(os_remove)
    }

    /// Whether the hotkey that `description` names is registered.
    pub fn check_is_registered(&self, description: &str) -> (r: Result<bool, ParseError>)
        ensures
            match parse_spec(description@) {
                Ok(hotkey) => r == Ok::<bool, ParseError>(registered(self@, hotkey)),
                Err(e) => r is Err && r->Err_0@ == e,
            },
    {
        match parse(description) {
            Ok(hotkey) => Ok(self.registry.is_registered(&hotkey)),
            Err(e) => Err(e),
        }
    }

    /// Delivers a key event, as the registry's `dispatch` does.
    pub fn dispatch<F>(&self, event: &Hotkey, schedule: F) -> (r: bool) where F: FnOnce(&C)
        requires
            registered(self@, *event) ==> schedule.requires(
                (&self@[slot(self@, *event)].callback,),
            ),
        ensures
            r == registered(self@, *event),
            r ==> schedule.ensures((&self@[slot(self@, *event)].callback,), ()),
    {
        self.registry.dispatch(event, schedule)
    }

    /// Ends the manager: removes every hook by `os_remove` and reports no
    /// failure. The entries whose hook could not be removed are handed
    /// back.
    pub fn teardown<F>(self, os_remove: F) -> (left: Vec<Entry<H, C>>) where
        F: Fn(&H) -> Result<(), OsError>,

        requires
            forall|i: int| 0 <= i < self@.len() ==> os_remove.requires((&self@[i].os_handle,)),
        ensures
            exists|removals: Seq<Result<(), OsError>>|
                removals.len() == self@.len() && (forall|i: int|
                    0 <= i < self@.len() ==> os_remove.ensures(
                        (&self@[i].os_handle,),
                        #[trigger] removals[i],
                    )) && left@ == kept(self@, removals),
    {
        assert(self@ == self.registry@);
        self.registry.teardown(os_remove)
    }
}

} // verus!
