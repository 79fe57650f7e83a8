//! Key names, resolved through the `tauri_hotkey` crate.

use vstd::prelude::*;
use crate::hotkey::Modifier;
use crate::hotkey::Modifiers;

verus! {

/// What `tauri_hotkey::parse_hotkey` makes of the text `token`: `None` where
/// it fails, otherwise the modifiers and the key codes of the hotkey it
/// returns, each in the order in which the hotkey lists them. The
/// table of key names and codes is fixed when `tauri_hotkey` is compiled, so
/// within one build the same text always gives the same result.
pub uninterp spec fn key_lookup(token: Seq<char>) -> Option<(Seq<Modifier>, Seq<u32>)>;

/// Hands `token` to `tauri_hotkey::parse_hotkey`.
///
/// Trusted: the call computes its result from the text alone, so the result
/// is `key_lookup` of the token. Nothing is claimed about which texts name
/// a key or which codes they get; the key-name table is the outside
/// crate's.
#[verifier::external_body]
pub(crate) fn lookup_key(token: &str) -> (r: Option<(Vec<Modifier>, Vec<u32>)>)
    ensures
        match r {
            Some((modifiers, keys)) => key_lookup(token@) == Some((modifiers@, keys@)),
            None => key_lookup(token@) is None,
        },
{
    let parsed = tauri_hotkey::parse_hotkey(token).ok()?;
    let modifiers = parsed.modifiers.iter().map(|m| match m {
        tauri_hotkey::Modifier::CTRL => Modifier::Ctrl,
        tauri_hotkey::Modifier::SHIFT => Modifier::Shift,
        tauri_hotkey::Modifier::ALT => Modifier::Alt,
        tauri_hotkey::Modifier::ALTGR => Modifier::AltGr,
        tauri_hotkey::Modifier::SUPER => Modifier::Super,
    }).collect();
    let keys = parsed.keys.iter().map(|k| *k as u32).collect();
    Some((modifiers, keys))
}

/// A token that names a key: the key's code, and the modifiers that the
/// token implies besides (a shifted symbol implies SHIFT).
#[derive(Clone, Copy, Debug, PartialEq, Eq, Structural)]
pub struct KeyToken {
    pub code: u32,
    pub implied: Modifiers,
}

impl KeyToken {
    /// Reads the outcome of a lookup: a token names a key exactly when the
    /// lookup succeeded with one key.
    pub open spec fn from_outcome(outcome: Option<(Seq<Modifier>, Seq<u32>)>) -> Option<KeyToken> {
        match outcome {
            Some((modifiers, keys)) => if keys.len() == 1 {
                Some(KeyToken { code: keys[0], implied: Modifiers::of(modifiers) })
            } else {
                None
            },
            None => None,
        }
    }

    /// The key that the text `token` names, if it names one.
    pub open spec fn named_by(token: Seq<char>) -> Option<KeyToken> {
        KeyToken::from_outcome(key_lookup(token))
    }

    pub fn from_lookup(outcome: Option<(Vec<Modifier>, Vec<u32>)>) -> (r: Option<KeyToken>)
        ensures
            r == KeyToken::from_outcome(
                match outcome {
                    Some((modifiers, keys)) => Some((modifiers@, keys@)),
                    None => None,
                },
            ),
    {
        match outcome {
            Some((modifiers, keys)) => {
                if keys.len() == 1 {
                    Some(KeyToken { code: keys[0], implied: Modifiers::from_list(&modifiers) })
                } else {
                    None
                }
            },
            None => None,
        }
    }

    /// Resolves a token that is no modifier.
    pub fn resolve(token: &str) -> (r: Option<KeyToken>)
        ensures
            r == KeyToken::named_by(token@),
    {
        KeyToken::from_lookup(lookup_key(token))
    }
}

} // verus!
