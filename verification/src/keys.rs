//! Keys and the modifiers held with them.
use vstd::prelude::*;

verus! {

/// A key on its own.
#[derive(Debug, Clone, Copy, PartialEq, Eq, Structural)]
pub enum BareKey {
    PageDown,
    PageUp,
    Left,
    Down,
    Up,
    Right,
    Home,
    End,
    Backspace,
    Delete,
    Insert,
    F(u8),
    Char(char),
    Tab,
    Esc,
    Enter,
    CapsLock,
    ScrollLock,
    NumLock,
    PrintScreen,
    Pause,
    Menu,
}

/// A key that is held while another one is pressed.
#[derive(Debug, Clone, Copy, PartialEq, Eq, Structural)]
pub enum KeyModifier {
    Ctrl,
    Alt,
    Shift,
    Super,
}

/// The modifiers that are held with a key.
#[derive(Debug, Clone, Copy, PartialEq, Eq, Structural)]
pub struct KeyModifiers {
    pub ctrl: bool,
    pub alt: bool,
    pub shift: bool,
    pub super_key: bool,
}

impl KeyModifiers {
    /// No modifier.
    pub open spec fn spec_none() -> Self {
        KeyModifiers { ctrl: false, alt: false, shift: false, super_key: false }
    }

    /// No modifier.
    pub fn none() -> (modifiers: Self)
        ensures
            modifiers == Self::spec_none(),
    {
        KeyModifiers { ctrl: false, alt: false, shift: false, super_key: false }
    }

    /// Whether `modifier` is held.
    pub open spec fn holds(self, modifier: KeyModifier) -> bool {
        match modifier {
            KeyModifier::Ctrl => self.ctrl,
            KeyModifier::Alt => self.alt,
            KeyModifier::Shift => self.shift,
            KeyModifier::Super => self.super_key,
        }
    }

    /// Whether `modifier` is held.
    pub fn contains(&self, modifier: &KeyModifier) -> (held: bool)
        ensures
            held == self.holds(*modifier),
    {
        match modifier {
            KeyModifier::Ctrl => self.ctrl,
            KeyModifier::Alt => self.alt,
            KeyModifier::Shift => self.shift,
            KeyModifier::Super => self.super_key,
        }
    }

    /// Whether no modifier is held.
    pub fn is_empty(&self) -> (empty: bool)
        ensures
            empty == (*self == Self::spec_none()),
            empty == forall|modifier: KeyModifier| !self.holds(modifier),
    {
        let empty = !self.ctrl && !self.alt && !self.shift && !self.super_key;
        proof {
            assert(self.holds(KeyModifier::Ctrl) == self.ctrl);
            assert(self.holds(KeyModifier::Alt) == self.alt);
            assert(self.holds(KeyModifier::Shift) == self.shift);
            assert(self.holds(KeyModifier::Super) == self.super_key);
        }
        empty
    }
}

/// A key with the modifiers that are held with it.
#[derive(Debug, Clone, Copy, PartialEq, Eq, Structural)]
pub struct KeyWithModifier {
    pub bare_key: BareKey,
    pub key_modifiers: KeyModifiers,
}

impl KeyWithModifier {
    /// The key without modifiers.
    pub fn new(bare_key: BareKey) -> (key: Self)
        ensures
            key.bare_key == bare_key,
            key.key_modifiers == KeyModifiers::spec_none(),
    {
        KeyWithModifier { bare_key, key_modifiers: KeyModifiers::none() }
    }

    /// The same key with Ctrl held as well.
    pub fn with_ctrl_modifier(self) -> (key: Self)
        ensures
            key.bare_key == self.bare_key,
            key.key_modifiers == (KeyModifiers { ctrl: true, ..self.key_modifiers }),
    {
        KeyWithModifier {
            bare_key: self.bare_key,
            key_modifiers: KeyModifiers {
                ctrl: true,
                alt: self.key_modifiers.alt,
                shift: self.key_modifiers.shift,
                super_key: self.key_modifiers.super_key,
            },
        }
    }
}

/// Each modifier is held on its own, and modifiers are the same exactly if the same
/// ones are held.
pub proof fn law_modifiers_are_told_apart(modifiers: KeyModifiers, other: KeyModifiers)
    ensures
        modifiers.holds(KeyModifier::Ctrl) == modifiers.ctrl,
        modifiers.holds(KeyModifier::Alt) == modifiers.alt,
        modifiers.holds(KeyModifier::Shift) == modifiers.shift,
        modifiers.holds(KeyModifier::Super) == modifiers.super_key,
        (forall|modifier: KeyModifier| modifiers.holds(modifier) == other.holds(modifier))
            <==> modifiers == other,
        forall|modifier: KeyModifier| !KeyModifiers::spec_none().holds(modifier),
{
    if forall|modifier: KeyModifier| modifiers.holds(modifier) == other.holds(modifier) {
        assert(modifiers.holds(KeyModifier::Ctrl) == other.holds(KeyModifier::Ctrl));
        assert(modifiers.holds(KeyModifier::Alt) == other.holds(KeyModifier::Alt));
        assert(modifiers.holds(KeyModifier::Shift) == other.holds(KeyModifier::Shift));
        assert(modifiers.holds(KeyModifier::Super) == other.holds(KeyModifier::Super));
    }
}

} // verus!
