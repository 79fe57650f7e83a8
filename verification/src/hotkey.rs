//! The canonical identity of a global shortcut.

use vstd::prelude::*;

verus! {

/// One modifier key.
#[derive(Clone, Copy, Debug, PartialEq, Eq, Hash, Structural)]
pub enum Modifier {
    Ctrl,
    Shift,
    Alt,
    AltGr,
    Super,
}

/// The set of modifier keys that must be held for a hotkey to fire.
///
/// Each flag is independent and the set carries no order: two sets are equal
/// exactly when they hold the same modifiers.
#[derive(Clone, Copy, Debug, PartialEq, Eq, Hash, Structural)]
pub struct Modifiers {
    pub ctrl: bool,
    pub shift: bool,
    pub alt: bool,
    pub alt_gr: bool,
    pub super_key: bool,
}

impl Modifiers {
    /// The empty set.
    pub open spec fn empty() -> Modifiers {
        Modifiers { ctrl: false, shift: false, alt: false, alt_gr: false, super_key: false }
    }

    /// Whether `m` is in the set.
    pub open spec fn has(self, m: Modifier) -> bool {
        match m {
            Modifier::Ctrl => self.ctrl,
            Modifier::Shift => self.shift,
            Modifier::Alt => self.alt,
            Modifier::AltGr => self.alt_gr,
            Modifier::Super => self.super_key,
        }
    }

    /// The set with `m` added.
    pub open spec fn plus(self, m: Modifier) -> Modifiers {
        match m {
            Modifier::Ctrl => Modifiers { ctrl: true, ..self },
            Modifier::Shift => Modifiers { shift: true, ..self },
            Modifier::Alt => Modifiers { alt: true, ..self },
            Modifier::AltGr => Modifiers { alt_gr: true, ..self },
            Modifier::Super => Modifiers { super_key: true, ..self },
        }
    }

    /// The union of two sets.
    pub open spec fn join(self, other: Modifiers) -> Modifiers {
        Modifiers {
            ctrl: self.ctrl || other.ctrl,
            shift: self.shift || other.shift,
            alt: self.alt || other.alt,
            alt_gr: self.alt_gr || other.alt_gr,
            super_key: self.super_key || other.super_key,
        }
    }

    /// The set of the modifiers that occur in `list`, whatever their order
    /// and however often each occurs.
    pub open spec fn of(list: Seq<Modifier>) -> Modifiers {
        Modifiers {
            ctrl: list.contains(Modifier::Ctrl),
            shift: list.contains(Modifier::Shift),
            alt: list.contains(Modifier::Alt),
            alt_gr: list.contains(Modifier::AltGr),
            super_key: list.contains(Modifier::Super),
        }
    }

    pub fn none() -> (r: Modifiers)
        ensures
            r == Modifiers::empty(),
    {
        Modifiers { ctrl: false, shift: false, alt: false, alt_gr: false, super_key: false }
    }

    pub fn contains(&self, m: Modifier) -> (r: bool)
        ensures
            r == self.has(m),
    {
        match m {
            Modifier::Ctrl => self.ctrl,
            Modifier::Shift => self.shift,
            Modifier::Alt => self.alt,
            Modifier::AltGr => self.alt_gr,
            Modifier::Super => self.super_key,
        }
    }

    pub fn with(self, m: Modifier) -> (r: Modifiers)
        ensures
            r == self.plus(m),
            forall|other: Modifier| r.has(other) == (other == m || self.has(other)),
    {
        match m {
            Modifier::Ctrl => Modifiers { ctrl: true, ..self },
            Modifier::Shift => Modifiers { shift: true, ..self },
            Modifier::Alt => Modifiers { alt: true, ..self },
            Modifier::AltGr => Modifiers { alt_gr: true, ..self },
            Modifier::Super => Modifiers { super_key: true, ..self },
        }
    }

    pub fn union(self, other: Modifiers) -> (r: Modifiers)
        ensures
            r == self.join(other),
            forall|m: Modifier| r.has(m) == (self.has(m) || other.has(m)),
    {
        Modifiers {
            ctrl: self.ctrl || other.ctrl,
            shift: self.shift || other.shift,
            alt: self.alt || other.alt,
            alt_gr: self.alt_gr || other.alt_gr,
            super_key: self.super_key || other.super_key,
        }
    }

    pub fn is_empty(&self) -> (r: bool)
        ensures
            r == (*self == Modifiers::empty()),
            r == forall|m: Modifier| !self.has(m),
    {
        assert(self.has(Modifier::Ctrl) == self.ctrl);
        assert(self.has(Modifier::Shift) == self.shift);
        assert(self.has(Modifier::Alt) == self.alt);
        assert(self.has(Modifier::AltGr) == self.alt_gr);
        assert(self.has(Modifier::Super) == self.super_key);
        !(self.ctrl || self.shift || self.alt || self.alt_gr || self.super_key)
    }

    /// Collects a list of modifiers into a set.
    pub fn from_list(list: &Vec<Modifier>) -> (r: Modifiers)
        ensures
            r == Modifiers::of(list@),
            forall|m: Modifier| r.has(m) == list@.contains(m),
    {
        let mut set = Modifiers::none();
        let mut i: usize = 0;
        while i < list.len()
            invariant
                i <= list.len(),
                forall|m: Modifier| set.has(m) == list@.take(i as int).contains(m),
            decreases list.len() - i,
        {
            let ghost before = list@.take(i as int);
            let ghost after = list@.take(i + 1);
            let item = list[i];
            assert(after =~= before.push(item));
            assert forall|m: Modifier| after.contains(m) == (m == item || before.contains(m)) by {
                lemma_contains_push(before, item, m);
            }
            set = set.with(item);
            i += 1;
        }
        assert(list@.take(i as int) =~= list@);
        assert(set.has(Modifier::Ctrl) == set.ctrl);
        assert(set.has(Modifier::Shift) == set.shift);
        assert(set.has(Modifier::Alt) == set.alt);
        assert(set.has(Modifier::AltGr) == set.alt_gr);
        assert(set.has(Modifier::Super) == set.super_key);
        set
    }
}

/// A value occurs in a sequence with one more element exactly when it is that
/// element or occurred before.
pub proof fn lemma_contains_push<A>(s: Seq<A>, last: A, needle: A)
    ensures
        s.push(last).contains(needle) == (needle == last || s.contains(needle)),
{
    if s.push(last).contains(needle) {
        let j = choose|j: int| 0 <= j < s.push(last).len() && s.push(last)[j] == needle;
        if j < s.len() {
            assert(s[j] == needle);
        }
    }
    if s.contains(needle) {
        let j = choose|j: int| 0 <= j < s.len() && s[j] == needle;
        assert(s.push(last)[j] == needle);
    }
    if needle == last {
        assert(s.push(last)[s.len() as int] == needle);
    }
}

/// A modifier set together with exactly one non-modifier key.
///
/// Two hotkeys are equal exactly when their modifier sets and their key
/// codes are equal.
#[derive(Clone, Copy, Debug, PartialEq, Eq, Hash, Structural)]
pub struct Hotkey {
    pub modifiers: Modifiers,
    /// The code of the one non-modifier key.
    pub key: u32,
}

impl Hotkey {
    pub fn new(modifiers: Modifiers, key: u32) -> (r: Hotkey)
        ensures
            r == (Hotkey { modifiers, key }),
    {
        Hotkey { modifiers, key }
    }

    /// Whether two hotkeys name the same combination.
    pub fn same(&self, other: &Hotkey) -> (r: bool)
        ensures
            r == (*self == *other),
    {
        *self == *other
    }
}

} // verus!
