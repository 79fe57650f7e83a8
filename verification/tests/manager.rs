use std::cell::Cell;
use std::cell::RefCell;

use hotkey_manager::error::{Error, OsError, ParseError, RegistryError};
use hotkey_manager::hotkey::Hotkey;
use hotkey_manager::manager::HotkeyManager;
use hotkey_manager::parser::parse;

fn install_ok(hotkey: &Hotkey) -> Result<u32, OsError> {
    Ok(hotkey.key)
}

#[test]
fn new_manager_has_nothing_registered() {
    let manager: HotkeyManager<u32, u32> = HotkeyManager::new();
    assert!(manager.registry.is_empty());
    assert_eq!(manager.check_is_registered("CTRL+K"), Ok(false));
}

#[test]
fn register_then_check() {
    let mut manager: HotkeyManager<u32, &str> = HotkeyManager::new();
    assert_eq!(manager.register("CTRL+SHIFT+K", install_ok, "cb"), Ok(()));
    assert_eq!(manager.check_is_registered("CTRL+SHIFT+K"), Ok(true));
    assert_eq!(manager.check_is_registered("shift + ctrl + k"), Ok(true));
    assert_eq!(manager.check_is_registered("CTRL+K"), Ok(false));
    assert_eq!(manager.unregister("CTRL+SHIFT+K", |_| Ok(())), Ok(()));
    assert_eq!(manager.check_is_registered("CTRL+SHIFT+K"), Ok(false));
}

#[test]
fn install_receives_the_parsed_hotkey() {
    let seen = RefCell::new(None);
    let mut manager: HotkeyManager<u32, u32> = HotkeyManager::new();
    manager
        .register(
            "alt+f4",
            |hotkey| {
                *seen.borrow_mut() = Some(*hotkey);
                Ok(1)
            },
            0,
        )
        .unwrap();
    assert_eq!(*seen.borrow(), Some(parse("ALT+F4").unwrap()));
}

#[test]
fn same_hotkey_under_another_spelling_is_already_registered() {
    let installs = Cell::new(0);
    let mut manager: HotkeyManager<u32, u32> = HotkeyManager::new();
    let install = |_: &Hotkey| {
        installs.set(installs.get() + 1);
        Ok(1)
    };
    assert_eq!(manager.register("CTRL+SHIFT+K", install, 0), Ok(()));
    assert_eq!(
        manager.register("shift+control+k", install, 0),
        Err(Error::Registry(RegistryError::AlreadyRegistered))
    );
    assert_eq!(
        manager.register("CTRL+SHIFT+K", install, 0),
        Err(Error::Registry(RegistryError::AlreadyRegistered))
    );
    assert_eq!(installs.get(), 1);
    assert_eq!(manager.registry.len(), 1);
}

#[test]
fn parse_errors_come_before_any_os_call() {
    let calls = Cell::new(0);
    let mut manager: HotkeyManager<u32, u32> = HotkeyManager::new();
    let install = |_: &Hotkey| {
        calls.set(calls.get() + 1);
        Ok(1)
    };
    assert_eq!(
        manager.register("", install, 0),
        Err(Error::Parse(ParseError::EmptyDescription))
    );
    assert_eq!(
        manager.register("CTRL", install, 0),
        Err(Error::Parse(ParseError::MissingKey))
    );
    assert_eq!(
        manager.register("CTRL+K+L", install, 0),
        Err(Error::Parse(ParseError::MultipleKeys))
    );
    assert_eq!(
        manager.register("FOO+K", install, 0),
        Err(Error::Parse(ParseError::UnknownToken("FOO".to_string())))
    );
    assert_eq!(
        manager.unregister("FOO+K", |_| {
            calls.set(calls.get() + 1);
            Ok(())
        }),
        Err(Error::Parse(ParseError::UnknownToken("FOO".to_string())))
    );
    assert_eq!(
        manager.check_is_registered("CTRL+"),
        Err(ParseError::MissingKey)
    );
    assert_eq!(calls.get(), 0);
    assert!(manager.registry.is_empty());
}

#[test]
fn os_failures_are_passed_on() {
    let mut manager: HotkeyManager<u32, u32> = HotkeyManager::new();
    assert_eq!(
        manager.register("CTRL+K", |_| Err(OsError::AlreadyBoundElsewhere), 0),
        Err(Error::Os(OsError::AlreadyBoundElsewhere))
    );
    assert_eq!(manager.check_is_registered("CTRL+K"), Ok(false));
    manager.register("CTRL+K", install_ok, 0).unwrap();
    assert_eq!(
        manager.unregister("CTRL+K", |_| Err(OsError::InvalidHandle)),
        Err(Error::Os(OsError::InvalidHandle))
    );
    assert_eq!(manager.check_is_registered("CTRL+K"), Ok(true));
}

#[test]
fn unregister_unknown_hotkey() {
    let removals = Cell::new(0);
    let mut manager: HotkeyManager<u32, u32> = HotkeyManager::new();
    manager.register("CTRL+K", install_ok, 0).unwrap();
    assert_eq!(
        manager.unregister("CTRL+L", |_| {
            removals.set(removals.get() + 1);
            Ok(())
        }),
        Err(Error::Registry(RegistryError::NotRegistered))
    );
    assert_eq!(removals.get(), 0);
}

#[test]
fn unregister_all_keeps_the_one_that_failed() {
    let mut manager: HotkeyManager<u32, u32> = HotkeyManager::new();
    manager.register("CTRL+A", |_| Ok(1), 0).unwrap();
    manager.register("CTRL+B", |_| Ok(2), 0).unwrap();
    manager.register("CTRL+C", |_| Ok(3), 0).unwrap();
    let r = manager.unregister_all(|handle| {
        if *handle == 2 {
            Err(OsError::InvalidHandle)
        } else {
            Ok(())
        }
    });
    assert_eq!(r, Err(OsError::InvalidHandle));
    assert_eq!(manager.check_is_registered("CTRL+A"), Ok(false));
    assert_eq!(manager.check_is_registered("CTRL+B"), Ok(true));
    assert_eq!(manager.check_is_registered("CTRL+C"), Ok(false));
    assert_eq!(manager.unregister_all(|_| Ok(())), Ok(()));
    assert!(manager.registry.is_empty());
}

#[test]
fn matching_event_schedules_the_callback_once() {
    let scheduled = RefCell::new(Vec::new());
    let mut manager: HotkeyManager<u32, &str> = HotkeyManager::new();
    manager.register("CTRL+SHIFT+K", install_ok, "cb").unwrap();
    let event = parse("ctrl+shift+k").unwrap();
    assert!(manager.dispatch(&event, |cb| scheduled.borrow_mut().push(*cb)));
    assert_eq!(*scheduled.borrow(), vec!["cb"]);
    let other = parse("ctrl+k").unwrap();
    assert!(!manager.dispatch(&other, |cb| scheduled.borrow_mut().push(*cb)));
    let other = parse("ctrl+shift+l").unwrap();
    assert!(!manager.dispatch(&other, |cb| scheduled.borrow_mut().push(*cb)));
    assert_eq!(*scheduled.borrow(), vec!["cb"]);
}

#[test]
fn teardown_balances_installs_and_removes() {
    let installs = Cell::new(0);
    let removes = Cell::new(0);
    let mut manager: HotkeyManager<u32, u32> = HotkeyManager::new();
    for description in ["CTRL+A", "ALT+B", "SHIFT+F1", "SUPER+SPACE"] {
        manager
            .register(
                description,
                |_| {
                    installs.set(installs.get() + 1);
                    Ok(0)
                },
                0,
            )
            .unwrap();
    }
    let left = manager.teardown(|_| {
        removes.set(removes.get() + 1);
        Ok(())
    });
    assert!(left.is_empty());
    assert_eq!(installs.get(), 4);
    assert_eq!(removes.get(), 4);
}
